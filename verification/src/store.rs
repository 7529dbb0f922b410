//! The store: every queue, message, per-queue configuration and dead-letter
//! record the broker holds, with the state machine that moves messages
//! between `active`, `processing`, `deleted` and `dlq_pending`.
//!
//! The store is the single source of truth. Each operation takes the current
//! instant in milliseconds as an argument and its contract states exactly
//! which rows it touches and how.

use vstd::prelude::*;
use vstd::string::StrSliceExecFns;
use crate::strutil::lemma_name_irreflexive;
use crate::strutil::lemma_name_total;
use crate::strutil::lemma_name_transitive;
use crate::strutil::name_lt;
use crate::strutil::str_eq;
use crate::strutil::str_name_lt;

verus! {

/// Milliseconds of the deduplication window: five minutes.
pub const DEDUP_WINDOW_MS: u64 = 300000;

/// The states of the message lifecycle.
#[derive(Debug, Clone, Copy, PartialEq, Eq, Structural)]
pub enum MsgStatus {
    /// Deliverable (subject to visibility and delay).
    Active,
    /// Delivered and leased; hidden until the visibility deadline passes.
    Processing,
    /// Logically deleted; kept until retention removes it.
    Deleted,
    /// Over the receive limit, awaiting the move to the dead-letter table.
    DlqPending,
}

/// The error kinds the engine reports.
#[derive(Debug, Clone)]
pub enum QueueError {
    /// A queue or message that must exist does not.
    NotFound,
    /// A bad name, malformed configuration or out-of-range bound.
    Validation(String),
    /// A row with the same key already exists.
    Duplicate,
    /// Transient contention in the store.
    StorageBusy,
    /// An integrity failure in the store.
    StorageFatal(String),
    /// The caller's deadline fired.
    Cancelled,
}

/// A queue: its unique name and creation instant.
#[derive(Debug, Clone)]
pub struct QueueRow {
    pub name: String,
    pub created_at: u64,
}

/// A live message row.
#[derive(Debug, Clone)]
pub struct MessageRow {
    pub id: String,
    pub queue_name: String,
    pub body: String,
    pub created_at: u64,
    pub visibility_deadline: Option<u64>,
    pub receive_count: u32,
    pub attributes: Option<String>,
    pub deduplication_id: Option<String>,
    pub status: MsgStatus,
    pub processed_at: Option<u64>,
    pub deleted_at: Option<u64>,
    pub delay_until: Option<u64>,
    pub message_group_id: Option<String>,
    pub sequence_number: Option<u64>,
}

/// A dead-letter record; a distinct entity from a live message.
#[derive(Debug, Clone)]
pub struct DlqRow {
    pub id: String,
    pub original_queue: String,
    pub dlq_queue: String,
    pub failure_reason: String,
    pub moved_at: u64,
    pub original_body: String,
    pub original_attributes: Option<String>,
    pub receive_count: u32,
    pub original_created_at: u64,
}

/// Approximate counts reported for a queue.
#[derive(Debug, Clone)]
pub struct QueueAttributes {
    pub approximate_number_of_messages: u32,
    pub approximate_number_of_messages_not_visible: u32,
    pub created_timestamp: u64,
}

/// Per-queue delivery counters.
#[derive(Debug, Clone)]
pub struct QueueMetric {
    pub messages_sent: u32,
    pub messages_received: u32,
    pub messages_deleted: u32,
    pub processing_time_ms: u32,
}

impl MessageRow {
    /// A copy of the row, equal to the original.
    pub fn duplicate(&self) -> (r: Self)
        ensures
            r == *self,
    {
        MessageRow {
            id: self.id.clone(),
            queue_name: self.queue_name.clone(),
            body: self.body.clone(),
            created_at: self.created_at,
            visibility_deadline: self.visibility_deadline,
            receive_count: self.receive_count,
            attributes: crate::strutil::clone_opt_string(&self.attributes),
            deduplication_id: crate::strutil::clone_opt_string(&self.deduplication_id),
            status: self.status,
            processed_at: self.processed_at,
            deleted_at: self.deleted_at,
            delay_until: self.delay_until,
            message_group_id: crate::strutil::clone_opt_string(&self.message_group_id),
            sequence_number: self.sequence_number,
        }
    }
}

impl DlqRow {
    /// A copy of the record, equal to the original.
    pub fn duplicate(&self) -> (r: Self)
        ensures
            r == *self,
    {
        DlqRow {
            id: self.id.clone(),
            original_queue: self.original_queue.clone(),
            dlq_queue: self.dlq_queue.clone(),
            failure_reason: self.failure_reason.clone(),
            moved_at: self.moved_at,
            original_body: self.original_body.clone(),
            original_attributes: crate::strutil::clone_opt_string(&self.original_attributes),
            receive_count: self.receive_count,
            original_created_at: self.original_created_at,
        }
    }
}

/// A message is past its visibility deadline and its delivery delay at `now`.
pub open spec fn visible_at(m: MessageRow, now: u64) -> bool {
    &&& match m.visibility_deadline {
        None => true,
        Some(d) => d < now,
    }
    &&& match m.delay_until {
        None => true,
        Some(d) => d < now,
    }
}

/// The selection predicate of a receive on queue `q` at instant `now`.
pub open spec fn eligible(m: MessageRow, q: Seq<char>, now: u64) -> bool {
    m.queue_name@ == q && m.status == MsgStatus::Active && visible_at(m, now)
}

/// The head-ordering key: sequence number on FIFO queues, arrival instant on
/// standard queues.
pub open spec fn order_key(m: MessageRow, fifo: bool) -> u64 {
    if fifo {
        match m.sequence_number {
            Some(s) => s,
            None => 0,
        }
    } else {
        m.created_at
    }
}

/// `a` is delivered before `b`: smaller key, with ties broken by message id.
pub open spec fn delivery_before(a: MessageRow, b: MessageRow, fifo: bool) -> bool {
    ||| order_key(a, fifo) < order_key(b, fifo)
    ||| (order_key(a, fifo) == order_key(b, fifo) && name_lt(a.id@, b.id@))
}

/// Message ids are unique.
pub open spec fn msgs_distinct(s: Seq<MessageRow>) -> bool {
    forall|i: int, j: int| 0 <= i < j < s.len() ==> s[i].id@ != s[j].id@
}

/// Every `processing` row carries a visibility deadline.
pub open spec fn msgs_leased(s: Seq<MessageRow>) -> bool {
    forall|i: int|
        0 <= i < s.len() ==> (#[trigger] s[i].status == MsgStatus::Processing
            ==> s[i].visibility_deadline matches Some(_))
}

/// Within one queue, assigned sequence numbers are unique.
pub open spec fn msgs_seq_distinct(s: Seq<MessageRow>) -> bool {
    forall|i: int, j: int|
        0 <= i < j < s.len() && s[i].queue_name@ == s[j].queue_name@
            && (s[i].sequence_number matches Some(_)) ==> s[i].sequence_number
            != s[j].sequence_number
}

/// The invariants of the message table.
pub open spec fn msgs_wf(s: Seq<MessageRow>) -> bool {
    msgs_distinct(s) && msgs_leased(s) && msgs_seq_distinct(s)
}

/// The queue table is strictly sorted by name; names are therefore unique.
pub open spec fn queues_sorted(s: Seq<QueueRow>) -> bool {
    forall|i: int, j: int| 0 <= i < j < s.len() ==> name_lt(s[i].name@, s[j].name@)
}

/// Configuration names are unique.
pub open spec fn configs_distinct(s: Seq<crate::config::QueueConfig>) -> bool {
    forall|i: int, j: int| 0 <= i < j < s.len() ==> s[i].name@ != s[j].name@
}

/// Dead-letter records: unique ids, newest first.
pub open spec fn dlq_wf(s: Seq<DlqRow>) -> bool {
    &&& forall|i: int, j: int| 0 <= i < j < s.len() ==> s[i].id@ != s[j].id@
    &&& forall|i: int, j: int| 0 <= i < j < s.len() ==> s[i].moved_at >= s[j].moved_at
}

/// The store: queues, per-queue configurations, live messages and
/// dead-letter records.
pub struct Database {
    pub queues: Vec<QueueRow>,
    pub configs: Vec<crate::config::QueueConfig>,
    pub messages: Vec<MessageRow>,
    pub dlq: Vec<DlqRow>,
}

impl Database {
    /// The store's invariant.
    pub open spec fn wf(self) -> bool {
        &&& msgs_wf(self.messages@)
        &&& queues_sorted(self.queues@)
        &&& configs_distinct(self.configs@)
        &&& dlq_wf(self.dlq@)
    }

    pub open spec fn has_queue(self, q: Seq<char>) -> bool {
        exists|i: int| 0 <= i < self.queues@.len() && #[trigger] self.queues@[i].name@ == q
    }

    pub open spec fn has_config(self, q: Seq<char>) -> bool {
        exists|i: int| 0 <= i < self.configs@.len() && #[trigger] self.configs@[i].name@ == q
    }

    pub open spec fn has_msg(self, id: Seq<char>) -> bool {
        exists|i: int| 0 <= i < self.messages@.len() && #[trigger] self.messages@[i].id@ == id
    }

    pub open spec fn has_dlq_row(self, id: Seq<char>) -> bool {
        exists|i: int| 0 <= i < self.dlq@.len() && #[trigger] self.dlq@[i].id@ == id
    }

    /// `c` is the configuration the store holds for queue `q`.
    pub open spec fn config_is(self, q: Seq<char>, c: crate::config::QueueConfig) -> bool {
        exists|i: int|
            0 <= i < self.configs@.len() && #[trigger] self.configs@[i] == c && c.name@ == q
    }

    /// An empty store.
    pub fn new() -> (r: Self)
        ensures
            r.wf(),
            r.queues@.len() == 0,
            r.configs@.len() == 0,
            r.messages@.len() == 0,
            r.dlq@.len() == 0,
    {
        Database { queues: Vec::new(), configs: Vec::new(), messages: Vec::new(), dlq: Vec::new() }
    }

    /// The index of the message with the given id, if any.
    fn find_message(&self, id: &str) -> (r: Option<usize>)
        ensures
            match r {
                Some(i) => i < self.messages@.len() && self.messages@[i as int].id@ == id@,
                None => !self.has_msg(id@),
            },
    {
        let n = self.messages.len();
        let mut k: usize = 0;
        while k < n
            invariant
                n == self.messages@.len(),
                k <= n,
                forall|j: int| 0 <= j < k ==> self.messages@[j].id@ != id@,
            decreases n - k,
        {
            if str_eq(self.messages[k].id.as_str(), id) {
                return Some(k);
            }
            k = k + 1;
        }
        None
    }

    /// The index of the queue with the given name, if any.
    fn find_queue(&self, name: &str) -> (r: Option<usize>)
        ensures
            match r {
                Some(i) => i < self.queues@.len() && self.queues@[i as int].name@ == name@,
                None => !self.has_queue(name@),
            },
    {
        let n = self.queues.len();
        let mut k: usize = 0;
        while k < n
            invariant
                n == self.queues@.len(),
                k <= n,
                forall|j: int| 0 <= j < k ==> self.queues@[j].name@ != name@,
            decreases n - k,
        {
            if str_eq(self.queues[k].name.as_str(), name) {
                return Some(k);
            }
            k = k + 1;
        }
        None
    }

    /// Whether a queue with this name exists.
    pub fn queue_exists(&self, queue_name: &str) -> (r: bool)
        ensures
            r == self.has_queue(queue_name@),
    {
        match self.find_queue(queue_name) {
            Some(_) => true,
            None => false,
        }
    }

    /// The index of the configuration for the given queue, if any.
    fn find_config(&self, name: &str) -> (r: Option<usize>)
        ensures
            match r {
                Some(i) => i < self.configs@.len() && self.configs@[i as int].name@ == name@,
                None => !self.has_config(name@),
            },
    {
        let n = self.configs.len();
        let mut k: usize = 0;
        while k < n
            invariant
                n == self.configs@.len(),
                k <= n,
                forall|j: int| 0 <= j < k ==> self.configs@[j].name@ != name@,
            decreases n - k,
        {
            if str_eq(self.configs[k].name.as_str(), name) {
                return Some(k);
            }
            k = k + 1;
        }
        None
    }

    /// Creates the queue if it does not exist yet; recreating an existing
    /// queue is a no-op. Nothing else changes.
    pub fn create_queue(&mut self, queue_name: &str, now: u64) -> (r: Result<(), QueueError>)
        requires
            old(self).wf(),
        ensures
            final(self).wf(),
            r matches Ok(_),
            final(self).messages == old(self).messages,
            final(self).configs == old(self).configs,
            final(self).dlq == old(self).dlq,
            old(self).has_queue(queue_name@) ==> final(self).queues == old(self).queues,
            !old(self).has_queue(queue_name@) ==> exists|i: int|
                {
                    &&& 0 <= i <= old(self).queues@.len()
                    &&& #[trigger] final(self).queues@ == old(self).queues@.insert(
                        i,
                        final(self).queues@[i],
                    )
                    &&& final(self).queues@[i].name@ == queue_name@
                    &&& final(self).queues@[i].created_at == now
                },
            final(self).has_queue(queue_name@),
            forall|q2: Seq<char>|
                q2 != queue_name@ ==> (#[trigger] final(self).has_queue(q2) == old(
                    self,
                ).has_queue(q2)),
    {
        let n = self.queues.len();
        let mut k: usize = 0;
        while k < n
            invariant
                *self == *old(self),
                self.wf(),
                n == self.queues@.len(),
                k <= n,
                forall|j: int| 0 <= j < k ==> name_lt(#[trigger] self.queues@[j].name@, queue_name@),
            decreases n - k,
        {
            if str_eq(self.queues[k].name.as_str(), queue_name) {
                return Ok(());
            }
            if str_name_lt(queue_name, self.queues[k].name.as_str()) {
                self.insert_queue_row(k, queue_name, now);
                return Ok(());
            }
            proof {
                lemma_name_total(self.queues@[k as int].name@, queue_name@);
            }
            k = k + 1;
        }
        self.insert_queue_row(n, queue_name, now);
        Ok(())
    }

    /// Inserts a queue row at its sorted position.
    fn insert_queue_row(&mut self, k: usize, queue_name: &str, now: u64)
        requires
            old(self).wf(),
            k <= old(self).queues@.len(),
            forall|j: int| 0 <= j < k ==> name_lt(#[trigger] old(self).queues@[j].name@, queue_name@),
            k < old(self).queues@.len() ==> name_lt(queue_name@, old(self).queues@[k as int].name@),
        ensures
            final(self).wf(),
            final(self).messages == old(self).messages,
            final(self).configs == old(self).configs,
            final(self).dlq == old(self).dlq,
            !old(self).has_queue(queue_name@),
            final(self).queues@ == old(self).queues@.insert(
                k as int,
                final(self).queues@[k as int],
            ),
            final(self).queues@[k as int].name@ == queue_name@,
            final(self).queues@[k as int].created_at == now,
            final(self).has_queue(queue_name@),
            forall|q2: Seq<char>|
                q2 != queue_name@ ==> (#[trigger] final(self).has_queue(q2) == old(
                    self,
                ).has_queue(q2)),
    {
        proof {
            let qs = self.queues@;
            assert forall|j: int| 0 <= j < qs.len() implies qs[j].name@ != queue_name@ by {
                if j < k {
                    lemma_name_irreflexive(queue_name@);
                } else {
                    if j > k {
                        lemma_name_transitive(queue_name@, qs[k as int].name@, qs[j].name@);
                    }
                    lemma_name_irreflexive(queue_name@);
                }
            }
        }
        let row = QueueRow { name: queue_name.to_owned(), created_at: now };
        self.queues.insert(k, row);
        proof {
            let qs = old(self).queues@;
            let ns = self.queues@;
            assert forall|i: int, j: int| 0 <= i < j < ns.len() implies name_lt(
                ns[i].name@,
                ns[j].name@,
            ) by {
                if j < k {
                    assert(ns[i] == qs[i] && ns[j] == qs[j]);
                } else if i < k && j == k {
                    assert(ns[i] == qs[i]);
                } else if i == k && j > k {
                    assert(ns[j] == qs[j - 1]);
                    if j - 1 > k {
                        lemma_name_transitive(queue_name@, qs[k as int].name@, qs[j - 1].name@);
                    }
                } else if i < k && j > k {
                    assert(ns[i] == qs[i] && ns[j] == qs[j - 1]);
                } else {
                    assert(ns[i] == qs[i - 1] && ns[j] == qs[j - 1]);
                }
            }
            assert(ns[k as int].name@ == queue_name@);
            assert forall|q2: Seq<char>| q2 != queue_name@ implies (self.has_queue(q2) == old(
                self,
            ).has_queue(q2)) by {
                if old(self).has_queue(q2) {
                    let j = choose|j: int| 0 <= j < qs.len() && #[trigger] qs[j].name@ == q2;
                    if j < k as int {
                        assert(ns[j] == qs[j]);
                        assert(self.has_queue(q2));
                    } else {
                        assert(ns[j + 1] == qs[j]);
                        assert(self.has_queue(q2));
                    }
                }
                if self.has_queue(q2) {
                    let j = choose|j: int| 0 <= j < ns.len() && #[trigger] ns[j].name@ == q2;
                    assert(j != k as int);
                    let j0: int = if j < k as int { j } else { j - 1 };
                    assert(ns[j] == qs[j0]);
                    assert(old(self).has_queue(q2));
                }
            }
        }
    }

    /// Removes the queue and every message that sat in it. Yields `true`
    /// exactly when the queue existed. Configurations and dead-letter
    /// records are untouched.
    pub fn delete_queue(&mut self, queue_name: &str) -> (r: Result<bool, QueueError>)
        requires
            old(self).wf(),
        ensures
            final(self).wf(),
            r matches Ok(b) && b == old(self).has_queue(queue_name@),
            final(self).configs == old(self).configs,
            final(self).dlq == old(self).dlq,
            final(self).messages@ == remove_queue_msgs(old(self).messages@, queue_name@),
            !final(self).has_queue(queue_name@),
            forall|q: Seq<char>|
                q != queue_name@ ==> (#[trigger] final(self).has_queue(q) == old(self).has_queue(
                    q,
                )),
    {
        let existed = match self.find_queue(queue_name) {
            Some(i) => {
                let ghost qs = self.queues@;
                self.queues.remove(i);
                proof {
                    let ns = self.queues@;
                    assert forall|a: int, b: int| 0 <= a < b < ns.len() implies name_lt(
                        ns[a].name@,
                        ns[b].name@,
                    ) by {
                        let a0: int = if a < i { a } else { a + 1 };
                        let b0: int = if b < i { b } else { b + 1 };
                        assert(ns[a] == qs[a0] && ns[b] == qs[b0]);
                        assert(name_lt(qs[a0].name@, qs[b0].name@));
                    }
                    assert forall|j: int| 0 <= j < ns.len() implies ns[j].name@ != queue_name@ by {
                        let j0: int = if j < i { j } else { j + 1 };
                        assert(ns[j] == qs[j0]);
                        if j0 < i as int {
                            assert(name_lt(qs[j0].name@, qs[i as int].name@));
                        } else {
                            assert(name_lt(qs[i as int].name@, qs[j0].name@));
                        }
                        lemma_name_irreflexive(qs[i as int].name@);
                    }
                    assert forall|q: Seq<char>| q != queue_name@ implies (self.has_queue(q)
                        == old(self).has_queue(q)) by {
                        if old(self).has_queue(q) {
                            let j = choose|j: int|
                                0 <= j < qs.len() && #[trigger] qs[j].name@ == q;
                            if j < i {
                                assert(ns[j] == qs[j]);
                                assert(self.has_queue(q));
                            } else {
                                assert(ns[j - 1] == qs[j]);
                                assert(self.has_queue(q));
                            }
                        }
                        if self.has_queue(q) {
                            let j = choose|j: int|
                                0 <= j < ns.len() && #[trigger] ns[j].name@ == q;
                            let j0: int = if j < i { j } else { j + 1 };
                            assert(ns[j] == qs[j0]);
                            assert(old(self).has_queue(q));
                        }
                    }
                }
                true
            },
            None => false,
        };
        self.purge_queue_messages(queue_name);
        Ok(existed)
    }

    /// Removes every message of the given queue from the message table.
    fn purge_queue_messages(&mut self, queue_name: &str)
        requires
            old(self).wf(),
        ensures
            final(self).wf(),
            final(self).queues == old(self).queues,
            final(self).configs == old(self).configs,
            final(self).dlq == old(self).dlq,
            final(self).messages@ == remove_queue_msgs(old(self).messages@, queue_name@),
    {
        let ghost orig = self.messages@;
        let mut k: usize = 0;
        let ghost mut j: int = 0;
        while k < self.messages.len()
            invariant
                old(self).wf(),
                self.queues == old(self).queues,
                self.configs == old(self).configs,
                self.dlq == old(self).dlq,
                0 <= j <= orig.len(),
                k as int == remove_queue_msgs(orig.subrange(0, j), queue_name@).len(),
                self.messages@ == remove_queue_msgs(orig.subrange(0, j), queue_name@) + orig.skip(
                    j,
                ),
                msgs_wf(self.messages@),
            decreases orig.len() - j,
        {
            proof {
                assert(orig.subrange(0, j + 1).drop_last() =~= orig.subrange(0, j));
                assert(self.messages@[k as int] == orig[j]);
            }
            if str_eq(self.messages[k].queue_name.as_str(), queue_name) {
                let ghost pre = self.messages@;
                self.messages.remove(k);
                proof {
                    lemma_msgs_wf_remove(pre, k as int);
                    assert(self.messages@ =~= remove_queue_msgs(
                        orig.subrange(0, j + 1),
                        queue_name@,
                    ) + orig.skip(j + 1));
                    j = j + 1;
                }
            } else {
                proof {
                    assert(remove_queue_msgs(orig.subrange(0, j + 1), queue_name@)
                        =~= remove_queue_msgs(orig.subrange(0, j), queue_name@).push(orig[j]));
                    assert(self.messages@ =~= remove_queue_msgs(
                        orig.subrange(0, j + 1),
                        queue_name@,
                    ) + orig.skip(j + 1));
                    j = j + 1;
                }
                k = k + 1;
            }
        }
        proof {
            assert(orig.subrange(0, j) =~= orig);
            assert(self.messages@ =~= remove_queue_msgs(orig, queue_name@));
        }
    }

    /// Every queue with its creation instant, in name order.
    pub fn list_queues(&self) -> (r: Vec<(String, u64)>)
        requires
            self.wf(),
        ensures
            queue_listing(r@, self.queues@),
    {
        let n = self.queues.len();
        let mut out: Vec<(String, u64)> = Vec::new();
        let mut k: usize = 0;
        while k < n
            invariant
                n == self.queues@.len(),
                k <= n,
                out@.len() == k,
                forall|i: int|
                    0 <= i < k ==> (#[trigger] out@[i].0@) == self.queues@[i].name@ && out@[i].1
                        == self.queues@[i].created_at,
            decreases n - k,
        {
            out.push((self.queues[k].name.clone(), self.queues[k].created_at));
            k = k + 1;
        }
        out
    }
}

/// `r` lists exactly the queues of `qs`, name and creation instant, in
/// order.
pub open spec fn queue_listing(r: Seq<(String, u64)>, qs: Seq<QueueRow>) -> bool {
    &&& r.len() == qs.len()
    &&& forall|i: int|
        0 <= i < r.len() ==> (#[trigger] r[i].0@) == qs[i].name@ && r[i].1 == qs[i].created_at
}

/// The message table without the rows of queue `q`, in their original order.
pub open spec fn remove_queue_msgs(s: Seq<MessageRow>, q: Seq<char>) -> Seq<MessageRow>
    decreases s.len(),
{
    if s.len() == 0 {
        s
    } else {
        let rest = remove_queue_msgs(s.drop_last(), q);
        if s.last().queue_name@ == q {
            rest
        } else {
            rest.push(s.last())
        }
    }
}

/// Removing one row preserves the message-table invariants.
pub proof fn lemma_msgs_wf_remove(s: Seq<MessageRow>, i: int)
    requires
        msgs_wf(s),
        0 <= i < s.len(),
    ensures
        msgs_wf(s.remove(i)),
{
    let ns = s.remove(i);
    assert forall|a: int, b: int| 0 <= a < b < ns.len() implies ns[a].id@ != ns[b].id@
        && ((ns[a].queue_name@ == ns[b].queue_name@ && (ns[a].sequence_number matches Some(_)))
        ==> ns[a].sequence_number != ns[b].sequence_number) by {
        let a0: int = if a < i { a } else { a + 1 };
        let b0: int = if b < i { b } else { b + 1 };
        assert(ns[a] == s[a0] && ns[b] == s[b0]);
    }
    assert forall|a: int| 0 <= a < ns.len() implies (#[trigger] ns[a].status
        == MsgStatus::Processing ==> ns[a].visibility_deadline matches Some(_)) by {
        let a0: int = if a < i { a } else { a + 1 };
        assert(ns[a] == s[a0]);
    }
}

} // verus!

verus! {

/// Everything that characterizes a send: the target queue, the new message's
/// identity and payload, and the optional deduplication, delay and grouping
/// directives.
#[derive(Debug)]
pub struct SendMessageParams {
    pub queue_name: String,
    pub message_id: String,
    pub body: String,
    pub attributes: Option<String>,
    pub deduplication_id: Option<String>,
    pub delay_until: Option<u64>,
    pub message_group_id: Option<String>,
}

/// The character sequence of an optional string.
pub open spec fn opt_view(o: Option<String>) -> Option<Seq<char>> {
    match o {
        None => None,
        Some(s) => Some(s@),
    }
}

/// Some message of queue `q` carries deduplication id `d` and arrived within
/// the deduplication window before `now`.
pub open spec fn dedup_hit(s: Seq<MessageRow>, q: Seq<char>, d: Seq<char>, now: u64) -> bool {
    exists|i: int|
        0 <= i < s.len() && #[trigger] s[i].queue_name@ == q && (s[i].deduplication_id matches Some(
            x,
        ) && x@ == d) && s[i].created_at + DEDUP_WINDOW_MS > now
}

/// The largest sequence number assigned in queue `q`; 0 where none is.
pub open spec fn max_seq_no(s: Seq<MessageRow>, q: Seq<char>) -> int
    decreases s.len(),
{
    if s.len() == 0 {
        0
    } else {
        let rest = max_seq_no(s.drop_last(), q);
        let m = if s.last().queue_name@ == q {
            match s.last().sequence_number {
                Some(v) => v as int,
                None => 0,
            }
        } else {
            0
        };
        if m > rest {
            m
        } else {
            rest
        }
    }
}

/// Every assigned sequence number in queue `q` is bounded by the maximum.
pub proof fn lemma_max_seq_ge(s: Seq<MessageRow>, q: Seq<char>, i: int)
    requires
        0 <= i < s.len(),
        s[i].queue_name@ == q,
    ensures
        match s[i].sequence_number {
            Some(v) => v as int <= max_seq_no(s, q),
            None => true,
        },
    decreases s.len(),
{
    if i < s.len() - 1 {
        lemma_max_seq_ge(s.drop_last(), q, i);
        assert(s.drop_last()[i] == s[i]);
    }
}

pub proof fn lemma_max_seq_nonneg(s: Seq<MessageRow>, q: Seq<char>)
    ensures
        0 <= max_seq_no(s, q) <= u64::MAX as int,
    decreases s.len(),
{
    if s.len() > 0 {
        lemma_max_seq_nonneg(s.drop_last(), q);
    }
}

/// The deduplication id a send takes effect with: the explicit one, or on a
/// FIFO queue with content-based deduplication the digest of the body.
pub open spec fn effective_dedup(
    is_fifo: bool,
    cbd: bool,
    dedup: Option<Seq<char>>,
    body: Seq<char>,
) -> Option<Seq<char>> {
    match dedup {
        Some(d) => Some(d),
        None => if is_fifo && cbd {
            Some(crate::outside::md5_hex_of(body))
        } else {
            None
        },
    }
}

/// The group a send files under: the explicit one; on a FIFO queue without
/// one, `default`.
pub open spec fn effective_group(is_fifo: bool, group: Option<Seq<char>>) -> Option<Seq<char>> {
    match group {
        Some(g) => Some(g),
        None => if is_fifo {
            Some("default"@)
        } else {
            None
        },
    }
}

/// The row a successful send appends, field by field.
pub open spec fn sent_row_matches(
    m: MessageRow,
    q: Seq<char>,
    id: Seq<char>,
    body: Seq<char>,
    attrs: Option<Seq<char>>,
    eff_d: Option<Seq<char>>,
    delay: Option<u64>,
    group: Option<Seq<char>>,
    fifo: bool,
    maxseq: int,
    now: u64,
) -> bool {
    &&& m.id@ == id
    &&& m.queue_name@ == q
    &&& m.body@ == body
    &&& m.created_at == now
    &&& m.visibility_deadline matches None
    &&& m.receive_count == 0
    &&& opt_view(m.attributes) == attrs
    &&& opt_view(m.deduplication_id) == eff_d
    &&& m.status == MsgStatus::Active
    &&& m.processed_at matches None
    &&& m.deleted_at matches None
    &&& m.delay_until == delay
    &&& opt_view(m.message_group_id) == group
    &&& m.sequence_number == (if fifo {
        Some((maxseq + 1) as u64)
    } else {
        None::<u64>
    })
}

/// What a send does, for every combination of queue kind, deduplication and
/// prior state: a duplicate within the window silently succeeds and inserts
/// nothing; a clashing message id is refused; otherwise exactly one active
/// row is appended, with the next sequence number on a FIFO queue.
pub open spec fn send_outcome(
    pre: Database,
    post: Database,
    q: Seq<char>,
    id: Seq<char>,
    body: Seq<char>,
    attrs: Option<Seq<char>>,
    dedup: Option<Seq<char>>,
    delay: Option<u64>,
    group: Option<Seq<char>>,
    now: u64,
    r: Result<(), QueueError>,
) -> bool {
    let fifo = pre.fifo_of(q);
    let eff_d = effective_dedup(fifo, pre.cbd_of(q), dedup, body);
    let eff_g = effective_group(fifo, group);
    let dup = match eff_d {
        Some(d) => dedup_hit(pre.messages@, q, d, now),
        None => false,
    };
    &&& post.queues == pre.queues
    &&& post.configs == pre.configs
    &&& post.dlq == pre.dlq
    &&& if dup {
        post.messages == pre.messages && r matches Ok(_)
    } else if pre.has_msg(id) {
        post.messages == pre.messages && (r matches Err(e) && e matches QueueError::Duplicate)
    } else if fifo && max_seq_no(pre.messages@, q) == u64::MAX as int {
        post.messages == pre.messages && (r matches Err(e) && e matches QueueError::StorageFatal(_))
    } else {
        &&& r matches Ok(_)
        &&& post.messages@.len() == pre.messages@.len() + 1
        &&& post.messages@.drop_last() == pre.messages@
        &&& sent_row_matches(
            post.messages@.last(),
            q,
            id,
            body,
            attrs,
            eff_d,
            delay,
            eff_g,
            fifo,
            max_seq_no(pre.messages@, q),
            now,
        )
    }
}

impl Database {
    /// The configuration of queue `q`, where one is stored.
    pub open spec fn spec_config(self, q: Seq<char>) -> Option<crate::config::QueueConfig> {
        if self.has_config(q) {
            Some(
                self.configs@[choose|i: int|
                    0 <= i < self.configs@.len() && #[trigger] self.configs@[i].name@ == q],
            )
        } else {
            None
        }
    }

    /// Whether queue `q` is FIFO; a queue without a configuration is
    /// standard.
    pub open spec fn fifo_of(self, q: Seq<char>) -> bool {
        match self.spec_config(q) {
            Some(c) => c.is_fifo,
            None => false,
        }
    }

    /// Whether queue `q` deduplicates on content.
    pub open spec fn cbd_of(self, q: Seq<char>) -> bool {
        match self.spec_config(q) {
            Some(c) => c.content_based_deduplication,
            None => false,
        }
    }

    /// The visibility window of queue `q` in milliseconds; 30 s without a
    /// configuration.
    pub open spec fn visibility_ms(self, q: Seq<char>) -> int {
        match self.spec_config(q) {
            Some(c) => c.visibility_timeout_seconds as int * 1000,
            None => 30000,
        }
    }

    /// A stored configuration with name `q` is the configuration of `q`.
    pub proof fn lemma_config_at(self, q: Seq<char>, i: int)
        requires
            configs_distinct(self.configs@),
            0 <= i < self.configs@.len(),
            self.configs@[i].name@ == q,
        ensures
            self.spec_config(q) == Some(self.configs@[i]),
    {
        let j = choose|j: int|
            0 <= j < self.configs@.len() && #[trigger] self.configs@[j].name@ == q;
        if i < j {
            assert(self.configs@[i].name@ != self.configs@[j].name@);
        }
        if j < i {
            assert(self.configs@[j].name@ != self.configs@[i].name@);
        }
    }

    /// The stored configuration of the queue, if any.
    pub fn get_queue_config(&self, queue_name: &str) -> (r: Option<crate::config::QueueConfig>)
        requires
            self.wf(),
        ensures
            r == self.spec_config(queue_name@),
    {
        match self.find_config(queue_name) {
            Some(i) => {
                proof {
                    self.lemma_config_at(queue_name@, i as int);
                }
                Some(self.configs[i].duplicate())
            },
            None => None,
        }
    }

    /// The largest sequence number assigned in the queue.
    fn max_sequence(&self, queue_name: &str) -> (r: u64)
        ensures
            r as int == max_seq_no(self.messages@, queue_name@),
    {
        let n = self.messages.len();
        let mut acc: u64 = 0;
        let mut k: usize = 0;
        proof {
            assert(self.messages@.subrange(0, 0) =~= Seq::<MessageRow>::empty());
        }
        while k < n
            invariant
                n == self.messages@.len(),
                k <= n,
                acc as int == max_seq_no(self.messages@.subrange(0, k as int), queue_name@),
            decreases n - k,
        {
            proof {
                assert(self.messages@.subrange(0, k + 1).drop_last() =~= self.messages@.subrange(
                    0,
                    k as int,
                ));
                assert(self.messages@.subrange(0, k + 1).last() == self.messages@[k as int]);
            }
            let m = &self.messages[k];
            if str_eq(m.queue_name.as_str(), queue_name) {
                if let Some(v) = m.sequence_number {
                    if v > acc {
                        acc = v;
                    }
                }
            }
            k = k + 1;
        }
        proof {
            assert(self.messages@.subrange(0, n as int) =~= self.messages@);
        }
        acc
    }

    /// Sends a message: the central path of the engine. A duplicate within
    /// the five-minute window silently succeeds without inserting; otherwise
    /// one active row is appended, with the next sequence number and the
    /// `default` group on FIFO queues, and the body digest as deduplication
    /// id where content-based deduplication asks for it.
    pub fn send_message_with_delay_and_group(
        &mut self,
        params: SendMessageParams,
        now: u64,
    ) -> (r: Result<(), QueueError>)
        requires
            old(self).wf(),
        ensures
            final(self).wf(),
            send_outcome(
                *old(self),
                *final(self),
                params.queue_name@,
                params.message_id@,
                params.body@,
                opt_view(params.attributes),
                opt_view(params.deduplication_id),
                params.delay_until,
                opt_view(params.message_group_id),
                now,
                r,
            ),
    {
        let ghost q = params.queue_name@;
        let SendMessageParams {
            queue_name,
            message_id,
            body,
            attributes,
            deduplication_id,
            delay_until,
            message_group_id,
        } = params;
        let cfg = self.get_queue_config(queue_name.as_str());
        let (fifo, cbd) = match &cfg {
            Some(c) => (c.is_fifo, c.content_based_deduplication),
            None => (false, false),
        };
        let group: Option<String> = match message_group_id {
            Some(g) => Some(g),
            None => if fifo {
                Some("default".to_owned())
            } else {
                None
            },
        };
        let eff_d: Option<String> = match deduplication_id {
            Some(d) => Some(d),
            None => if fifo && cbd {
                Some(crate::outside::md5_hex(body.as_str()))
            } else {
                None
            },
        };
        proof {
            assert(opt_view(eff_d) == effective_dedup(
                fifo,
                self.cbd_of(q),
                opt_view(params.deduplication_id),
                body@,
            ));
            assert(opt_view(group) == effective_group(fifo, opt_view(params.message_group_id)));
        }
        if let Some(d) = &eff_d {
            let n = self.messages.len();
            let mut k: usize = 0;
            while k < n
                invariant
                    *self == *old(self),
                    self.wf(),
                    n == self.messages@.len(),
                    k <= n,
                    forall|j: int|
                        0 <= j < k ==> !(#[trigger] self.messages@[j].queue_name@ == q
                            && (self.messages@[j].deduplication_id matches Some(x) && x@ == d@)
                            && self.messages@[j].created_at + DEDUP_WINDOW_MS > now),
                    q == queue_name@,
                    q == params.queue_name@,
                    Some(d@) == effective_dedup(
                        self.fifo_of(q),
                        self.cbd_of(q),
                        opt_view(params.deduplication_id),
                        params.body@,
                    ),
                decreases n - k,
            {
                let m = &self.messages[k];
                if str_eq(m.queue_name.as_str(), queue_name.as_str()) {
                    if let Some(md) = &m.deduplication_id {
                        if str_eq(md.as_str(), d.as_str()) {
                            let in_window = now <= m.created_at || now - m.created_at
                                < DEDUP_WINDOW_MS;
                            if in_window {
                                proof {
                                    assert(dedup_hit(self.messages@, q, d@, now));
                                }
                                return Ok(());
                            }
                        }
                    }
                }
                k = k + 1;
            }
            proof {
                assert(!dedup_hit(self.messages@, q, d@, now));
            }
        }
        match self.find_message(message_id.as_str()) {
            Some(_) => {
                return Err(QueueError::Duplicate);
            },
            None => {},
        }
        let seq_no: Option<u64> = if fifo {
            let mx = self.max_sequence(queue_name.as_str());
            if mx == u64::MAX {
                return Err(QueueError::StorageFatal("sequence numbers exhausted".to_owned()));
            }
            Some(mx + 1)
        } else {
            None
        };
        let ghost pre = self.messages@;
        let row = MessageRow {
            id: message_id,
            queue_name,
            body,
            created_at: now,
            visibility_deadline: None,
            receive_count: 0,
            attributes,
            deduplication_id: eff_d,
            status: MsgStatus::Active,
            processed_at: None,
            deleted_at: None,
            delay_until,
            message_group_id: group,
            sequence_number: seq_no,
        };
        self.messages.push(row);
        proof {
            let ns = self.messages@;
            let last = ns.len() - 1;
            assert(ns.drop_last() =~= pre);
            assert forall|i: int, j: int| 0 <= i < j < ns.len() implies ns[i].id@ != ns[j].id@ by {
                if j < last {
                    assert(ns[i] == pre[i] && ns[j] == pre[j]);
                } else {
                    assert(ns[i] == pre[i]);
                }
            }
            assert forall|i: int, j: int|
                0 <= i < j < ns.len() && ns[i].queue_name@ == ns[j].queue_name@
                    && (ns[i].sequence_number matches Some(_)) implies ns[i].sequence_number
                != ns[j].sequence_number by {
                if j < last {
                    assert(ns[i] == pre[i] && ns[j] == pre[j]);
                } else {
                    assert(ns[i] == pre[i]);
                    if ns[i].queue_name@ == q {
                        lemma_max_seq_ge(pre, q, i);
                    }
                }
            }
            assert forall|i: int| 0 <= i < ns.len() implies (#[trigger] ns[i].status
                == MsgStatus::Processing ==> ns[i].visibility_deadline matches Some(_)) by {
                if i < last {
                    assert(ns[i] == pre[i]);
                }
            }
        }
        Ok(())
    }

    /// Sends a message without delay or explicit group.
    pub fn send_message(
        &mut self,
        queue_name: &str,
        message_id: &str,
        body: &str,
        attributes: Option<String>,
        deduplication_id: Option<String>,
        now: u64,
    ) -> (r: Result<(), QueueError>)
        requires
            old(self).wf(),
        ensures
            final(self).wf(),
            send_outcome(
                *old(self),
                *final(self),
                queue_name@,
                message_id@,
                body@,
                opt_view(attributes),
                opt_view(deduplication_id),
                None,
                None,
                now,
                r,
            ),
    {
        let params = SendMessageParams {
            queue_name: queue_name.to_owned(),
            message_id: message_id.to_owned(),
            body: body.to_owned(),
            attributes,
            deduplication_id,
            delay_until: None,
            message_group_id: None,
        };
        self.send_message_with_delay_and_group(params, now)
    }
}

} // verus!

verus! {

/// `x` clamped into `u64`.
pub open spec fn sat64(x: int) -> u64 {
    if x > u64::MAX as int {
        u64::MAX
    } else {
        x as u64
    }
}

/// Saturating addition on `u64`.
pub fn sat_add_u64(a: u64, b: u64) -> (r: u64)
    ensures
        r == sat64(a as int + b as int),
{
    if a > u64::MAX - b {
        u64::MAX
    } else {
        a + b
    }
}

/// The delivery count after one more receive; the counter saturates rather
/// than wraps.
pub open spec fn next_count(c: u32) -> u32 {
    if c == u32::MAX {
        c
    } else {
        (c + 1) as u32
    }
}

/// Receiving the message once more would cross the queue's receive limit,
/// and the queue routes such messages to a dead-letter target.
pub open spec fn over_limit(db: Database, m: MessageRow) -> bool {
    match db.spec_config(m.queue_name@) {
        Some(c) => (c.max_receive_count matches Some(mx) && next_count(m.receive_count) > mx) && (
        c.dead_letter_target_arn matches Some(_)),
        None => false,
    }
}

/// Index `i` holds the head of queue `q` at `now`: eligible, and delivered
/// before every other eligible message.
pub open spec fn head_at(s: Seq<MessageRow>, q: Seq<char>, now: u64, fifo: bool, i: int) -> bool {
    &&& 0 <= i < s.len()
    &&& eligible(s[i], q, now)
    &&& forall|j: int|
        0 <= j < s.len() && j != i && eligible(#[trigger] s[j], q, now) ==> delivery_before(
            s[i],
            s[j],
            fifo,
        )
}

/// The row after a delivery: leased until `now + vis`, counted, processing.
pub open spec fn received_update(m: MessageRow, now: u64, vis: int) -> MessageRow {
    MessageRow {
        visibility_deadline: Some(sat64(now + vis)),
        receive_count: next_count(m.receive_count),
        status: MsgStatus::Processing,
        processed_at: Some(now),
        ..m
    }
}

/// The row after crossing the receive limit: counted and awaiting the move
/// to the dead-letter table.
pub open spec fn marked_update(m: MessageRow) -> MessageRow {
    MessageRow { receive_count: next_count(m.receive_count), status: MsgStatus::DlqPending, ..m }
}

/// One delivered message as handed to the caller: id, body, arrival instant
/// and attributes.
pub type DeliveredMsg = (String, String, u64, Option<String>);

/// `t` names a message of queue `q` that the store now holds leased:
/// processing, deadline not yet passed, counted at least once.
pub open spec fn delivered_row(db: Database, t: DeliveredMsg, q: Seq<char>, now: u64) -> bool {
    exists|j: int|
        {
            &&& 0 <= j < db.messages@.len()
            &&& #[trigger] db.messages@[j].id@ == t.0@
            &&& db.messages@[j].queue_name@ == q
            &&& db.messages@[j].body@ == t.1@
            &&& db.messages@[j].created_at == t.2
            &&& opt_view(db.messages@[j].attributes) == opt_view(t.3)
            &&& db.messages@[j].status == MsgStatus::Processing
            &&& (db.messages@[j].visibility_deadline matches Some(d) && d >= now)
            &&& db.messages@[j].receive_count >= 1
        }
}

/// `m` descends from a row of `pre`: same id, no smaller delivery count.
pub open spec fn descends_from(pre: Seq<MessageRow>, m: MessageRow) -> bool {
    exists|i: int|
        0 <= i < pre.len() && m.id@ == (#[trigger] pre[i].id@) && pre[i].receive_count
            <= m.receive_count
}

/// Every row of `post` descends from a row of `pre`: ids persist and
/// delivery counts never go down.
pub open spec fn rows_evolved(pre: Seq<MessageRow>, post: Seq<MessageRow>) -> bool {
    forall|j: int| 0 <= j < post.len() ==> descends_from(pre, #[trigger] post[j])
}

pub proof fn lemma_evolved_refl(s: Seq<MessageRow>)
    ensures
        rows_evolved(s, s),
{
    assert forall|j: int| 0 <= j < s.len() implies descends_from(s, #[trigger] s[j]) by {
        assert(s[j].id@ == s[j].id@ && s[j].receive_count <= s[j].receive_count);
    }
}

pub proof fn lemma_evolved_update(
    orig: Seq<MessageRow>,
    cur: Seq<MessageRow>,
    i: int,
    m2: MessageRow,
)
    requires
        rows_evolved(orig, cur),
        0 <= i < cur.len(),
        m2.id@ == cur[i].id@,
        cur[i].receive_count <= m2.receive_count,
    ensures
        rows_evolved(orig, cur.update(i, m2)),
{
    let ns = cur.update(i, m2);
    assert forall|j: int| 0 <= j < ns.len() implies descends_from(orig, #[trigger] ns[j]) by {
        if j == i {
            assert(descends_from(orig, cur[i]));
            let x = choose|x: int|
                0 <= x < orig.len() && cur[i].id@ == (#[trigger] orig[x].id@)
                    && orig[x].receive_count <= cur[i].receive_count;
            assert(ns[j].id@ == orig[x].id@ && orig[x].receive_count <= ns[j].receive_count);
        } else {
            assert(ns[j] == cur[j]);
            assert(descends_from(orig, cur[j]));
        }
    }
}

pub proof fn lemma_evolved_remove(orig: Seq<MessageRow>, cur: Seq<MessageRow>, i: int)
    requires
        rows_evolved(orig, cur),
        0 <= i < cur.len(),
    ensures
        rows_evolved(orig, cur.remove(i)),
{
    let ns = cur.remove(i);
    assert forall|j: int| 0 <= j < ns.len() implies descends_from(orig, #[trigger] ns[j]) by {
        let j0: int = if j < i { j } else { j + 1 };
        assert(ns[j] == cur[j0]);
        assert(descends_from(orig, cur[j0]));
    }
}

/// How many messages of queue `q` are eligible at `now`.
pub open spec fn eligible_count(s: Seq<MessageRow>, q: Seq<char>, now: u64) -> nat
    decreases s.len(),
{
    if s.len() == 0 {
        0
    } else {
        eligible_count(s.drop_last(), q, now) + if eligible(s.last(), q, now) {
            1nat
        } else {
            0nat
        }
    }
}

pub proof fn lemma_elig_count_update_drop(
    s: Seq<MessageRow>,
    q: Seq<char>,
    now: u64,
    i: int,
    m2: MessageRow,
)
    requires
        0 <= i < s.len(),
        eligible(s[i], q, now),
        !eligible(m2, q, now),
    ensures
        eligible_count(s.update(i, m2), q, now) < eligible_count(s, q, now),
    decreases s.len(),
{
    let ns = s.update(i, m2);
    if i == s.len() - 1 {
        assert(ns.drop_last() =~= s.drop_last());
        assert(ns.last() == m2);
    } else {
        assert(ns.drop_last() =~= s.drop_last().update(i, m2));
        assert(ns.last() == s.last());
        lemma_elig_count_update_drop(s.drop_last(), q, now, i, m2);
    }
}

pub proof fn lemma_elig_count_remove_nonelig(s: Seq<MessageRow>, q: Seq<char>, now: u64, i: int)
    requires
        0 <= i < s.len(),
        !eligible(s[i], q, now),
    ensures
        eligible_count(s.remove(i), q, now) == eligible_count(s, q, now),
    decreases s.len(),
{
    let ns = s.remove(i);
    if i == s.len() - 1 {
        assert(ns =~= s.drop_last());
    } else {
        assert(ns.drop_last() =~= s.drop_last().remove(i));
        assert(ns.last() == s.last());
        lemma_elig_count_remove_nonelig(s.drop_last(), q, now, i);
    }
}

/// The table after an update that keeps a row's identity, queue, sequence
/// number and lease discipline stays well formed.
pub proof fn lemma_msgs_wf_update(s: Seq<MessageRow>, i: int, m2: MessageRow)
    requires
        msgs_wf(s),
        0 <= i < s.len(),
        m2.id@ == s[i].id@,
        m2.queue_name@ == s[i].queue_name@,
        m2.sequence_number == s[i].sequence_number,
        m2.status == MsgStatus::Processing ==> m2.visibility_deadline matches Some(_),
    ensures
        msgs_wf(s.update(i, m2)),
{
    let ns = s.update(i, m2);
    assert forall|a: int, b: int| 0 <= a < b < ns.len() implies ns[a].id@ != ns[b].id@ && ((
    ns[a].queue_name@ == ns[b].queue_name@ && (ns[a].sequence_number matches Some(_)))
        ==> ns[a].sequence_number != ns[b].sequence_number) by {
        assert(ns[a].id@ == s[a].id@ && ns[b].id@ == s[b].id@);
        assert(ns[a].queue_name@ == s[a].queue_name@ && ns[b].queue_name@ == s[b].queue_name@);
        assert(ns[a].sequence_number == s[a].sequence_number && ns[b].sequence_number
            == s[b].sequence_number);
    }
    assert forall|a: int| 0 <= a < ns.len() implies (#[trigger] ns[a].status
        == MsgStatus::Processing ==> ns[a].visibility_deadline matches Some(_)) by {
        if a != i {
            assert(ns[a] == s[a]);
        }
    }
}

/// What one selection step hands back.
pub enum ReceiveOutcome {
    /// The head was delivered and is now leased.
    Delivered(String, String, u64, Option<String>),
    /// The head crossed the receive limit: it was marked `dlq_pending` and
    /// counted, not delivered.
    Marked(String),
    /// No eligible message.
    Empty,
}

/// What one selection step does, for every outcome: an empty result leaves
/// the store untouched and certifies that nothing was eligible; a delivery
/// or a marking changes exactly the head row — the eligible message least
/// in the delivery order — by `received_update` or `marked_update`.
pub open spec fn receive_step_outcome(
    pre: Database,
    post: Database,
    q: Seq<char>,
    now: u64,
    r: ReceiveOutcome,
) -> bool {
    &&& post.queues == pre.queues
    &&& post.configs == pre.configs
    &&& post.dlq == pre.dlq
    &&& match r {
        ReceiveOutcome::Empty => post == pre && (forall|j: int|
            0 <= j < pre.messages@.len() ==> !eligible(#[trigger] pre.messages@[j], q, now)),
        ReceiveOutcome::Delivered(id, body, created, attrs) => exists|i: int|
            {
                &&& #[trigger] head_at(pre.messages@, q, now, pre.fifo_of(q), i)
                &&& !over_limit(pre, pre.messages@[i])
                &&& post.messages@ == pre.messages@.update(
                    i,
                    received_update(pre.messages@[i], now, pre.visibility_ms(q)),
                )
                &&& id@ == pre.messages@[i].id@
                &&& body@ == pre.messages@[i].body@
                &&& created == pre.messages@[i].created_at
                &&& opt_view(attrs) == opt_view(pre.messages@[i].attributes)
            },
        ReceiveOutcome::Marked(id) => exists|i: int|
            {
                &&& #[trigger] head_at(pre.messages@, q, now, pre.fifo_of(q), i)
                &&& over_limit(pre, pre.messages@[i])
                &&& post.messages@ == pre.messages@.update(i, marked_update(pre.messages@[i]))
                &&& id@ == pre.messages@[i].id@
            },
    }
}

impl Database {
    /// One selection step on queue `q` at `now`: picks the head — the
    /// eligible message least in the delivery order — and either leases and
    /// hands it out, or, where one more receive would cross the queue's
    /// limit, marks it for the dead-letter table.
    pub fn receive_step(&mut self, queue_name: &str, now: u64) -> (r: ReceiveOutcome)
        requires
            old(self).wf(),
        ensures
            final(self).wf(),
            receive_step_outcome(*old(self), *final(self), queue_name@, now, r),
    {
        let ghost q = queue_name@;
        let cfg = self.get_queue_config(queue_name);
        let (fifo, vis_s, maxrc, has_dlq) = match &cfg {
            Some(c) => (
                c.is_fifo,
                c.visibility_timeout_seconds,
                c.max_receive_count,
                c.dead_letter_target_arn.is_some(),
            ),
            None => (false, 30u32, None, false),
        };
        let n = self.messages.len();
        let mut best: usize = 0;
        let mut have: bool = false;
        let mut k: usize = 0;
        while k < n
            invariant
                *self == *old(self),
                self.wf(),
                n == self.messages@.len(),
                k <= n,
                q == queue_name@,
                fifo == self.fifo_of(q),
                have ==> best < k && eligible(self.messages@[best as int], q, now) && (forall|
                    j: int,
                |
                    0 <= j < k && j != best && eligible(#[trigger] self.messages@[j], q, now)
                        ==> delivery_before(
                        self.messages@[best as int],
                        self.messages@[j],
                        fifo,
                    )),
                !have ==> (forall|j: int|
                    0 <= j < k ==> !eligible(#[trigger] self.messages@[j], q, now)),
            decreases n - k,
        {
            let m = &self.messages[k];
            let is_elig = str_eq(m.queue_name.as_str(), queue_name) && (match m.status {
                MsgStatus::Active => true,
                _ => false,
            }) && (match m.visibility_deadline {
                None => true,
                Some(d) => d < now,
            }) && (match m.delay_until {
                None => true,
                Some(d) => d < now,
            });
            if is_elig {
                if !have {
                    best = k;
                    have = true;
                } else {
                    let kb = if fifo {
                        match self.messages[best].sequence_number {
                            Some(s) => s,
                            None => 0,
                        }
                    } else {
                        self.messages[best].created_at
                    };
                    let kc = if fifo {
                        match self.messages[k].sequence_number {
                            Some(s) => s,
                            None => 0,
                        }
                    } else {
                        self.messages[k].created_at
                    };
                    if kc < kb || (kc == kb && str_name_lt(
                        self.messages[k].id.as_str(),
                        self.messages[best].id.as_str(),
                    )) {
                        proof {
                            assert(delivery_before(
                                self.messages@[k as int],
                                self.messages@[best as int],
                                fifo,
                            ));
                            assert forall|j: int|
                                0 <= j < k + 1 && j != k && eligible(
                                    #[trigger] self.messages@[j],
                                    q,
                                    now,
                                ) implies delivery_before(
                                self.messages@[k as int],
                                self.messages@[j],
                                fifo,
                            ) by {
                                if j != best {
                                    assert(delivery_before(
                                        self.messages@[best as int],
                                        self.messages@[j],
                                        fifo,
                                    ));
                                    crate::strutil::lemma_lex_transitive(
                                        crate::strutil::str_bytes(self.messages@[k as int].id@),
                                        crate::strutil::str_bytes(self.messages@[best as int].id@),
                                        crate::strutil::str_bytes(self.messages@[j].id@),
                                    );
                                }
                            }
                        }
                        best = k;
                    } else {
                        proof {
                            crate::strutil::lemma_name_total(
                                self.messages@[best as int].id@,
                                self.messages@[k as int].id@,
                            );
                            assert(self.messages@[best as int].id@ != self.messages@[k as int].id@);
                            assert(delivery_before(
                                self.messages@[best as int],
                                self.messages@[k as int],
                                fifo,
                            ));
                        }
                    }
                }
            }
            k = k + 1;
        }
        if !have {
            return ReceiveOutcome::Empty;
        }
        proof {
            assert(head_at(self.messages@, q, now, fifo, best as int));
        }
        let cur_count = self.messages[best].receive_count;
        let nc: u32 = if cur_count == u32::MAX {
            cur_count
        } else {
            cur_count + 1
        };
        let over = has_dlq && (match maxrc {
            Some(mx) => nc > mx,
            None => false,
        });
        proof {
            assert(over == over_limit(*self, self.messages@[best as int]));
        }
        if over {
            let id_out = self.messages[best].id.clone();
            let mut row = self.messages[best].duplicate();
            row.status = MsgStatus::DlqPending;
            row.receive_count = nc;
            proof {
                assert(row == marked_update(self.messages@[best as int]));
                lemma_msgs_wf_update(self.messages@, best as int, row);
            }
            self.messages.set(best, row);
            return ReceiveOutcome::Marked(id_out);
        }
        let vis_ms: u64 = (vis_s as u64) * 1000;
        proof {
            assert(vis_ms as int == self.visibility_ms(q));
        }
        let deadline = sat_add_u64(now, vis_ms);
        let id_out = self.messages[best].id.clone();
        let body_out = self.messages[best].body.clone();
        let created_out = self.messages[best].created_at;
        let attrs_out = crate::strutil::clone_opt_string(&self.messages[best].attributes);
        let mut row = self.messages[best].duplicate();
        row.visibility_deadline = Some(deadline);
        row.receive_count = nc;
        row.status = MsgStatus::Processing;
        row.processed_at = Some(now);
        proof {
            assert(row == received_update(self.messages@[best as int], now, self.visibility_ms(q)));
            lemma_msgs_wf_update(self.messages@, best as int, row);
        }
        self.messages.set(best, row);
        ReceiveOutcome::Delivered(id_out, body_out, created_out, attrs_out)
    }
}

} // verus!

verus! {

/// The dead-letter record at index `k`.
pub open spec fn post_dlq_at(db: Database, k: int) -> DlqRow {
    db.dlq@[k]
}

/// The dead-letter target of queue `q`, if its configuration names one.
pub open spec fn dlq_arn_of(db: Database, q: Seq<char>) -> Option<Seq<char>> {
    match db.spec_config(q) {
        Some(c) => opt_view(c.dead_letter_target_arn),
        None => None,
    }
}

/// The dead-letter record a promotion writes for message `m`.
pub open spec fn dlq_row_matches(
    d: DlqRow,
    m: MessageRow,
    arn: Seq<char>,
    reason: Seq<char>,
    now: u64,
) -> bool {
    &&& d.id@ == m.id@
    &&& d.original_queue@ == m.queue_name@
    &&& d.dlq_queue@ == crate::strutil::after_last_slash(arn)
    &&& d.failure_reason@ == reason
    &&& d.moved_at == now
    &&& d.original_body@ == m.body@
    &&& opt_view(d.original_attributes) == opt_view(m.attributes)
    &&& d.receive_count == m.receive_count
    &&& d.original_created_at == m.created_at
}

/// A promotion happened: the message left the live table, and exactly one
/// dead-letter record for it appeared, named after the last path component
/// of the queue's dead-letter target.
pub open spec fn promoted(
    pre: Database,
    post: Database,
    id: Seq<char>,
    reason: Seq<char>,
    now: u64,
) -> bool {
    exists|i: int|
        {
            &&& 0 <= i < pre.messages@.len()
            &&& (#[trigger] pre.messages@[i].id@) == id
            &&& pre.messages@[i].status != MsgStatus::Deleted
            &&& post.messages@ == pre.messages@.remove(i)
            &&& (dlq_arn_of(pre, pre.messages@[i].queue_name@) matches Some(arn) && exists|k: int|
                {
                    &&& 0 <= k < post.dlq@.len()
                    &&& k <= pre.dlq@.len()
                    &&& post.dlq@ == pre.dlq@.insert(k, #[trigger] post.dlq@[k])
                    &&& dlq_row_matches(post.dlq@[k], pre.messages@[i], arn, reason, now)
                })
        }
}

/// What a promotion call does, for every outcome: `true` means the message
/// moved (`promoted`); `false` means nothing changed because no live row
/// with the id exists or its queue names no dead-letter target; an error is
/// only the duplicate-record clash, on a message that could otherwise move.
pub open spec fn move_to_dlq_outcome(
    pre: Database,
    post: Database,
    id: Seq<char>,
    reason: Seq<char>,
    now: u64,
    r: Result<bool, QueueError>,
) -> bool {
    &&& post.queues == pre.queues
    &&& post.configs == pre.configs
    &&& rows_evolved(pre.messages@, post.messages@)
    &&& match r {
        Ok(true) => promoted(pre, post, id, reason, now),
        Ok(false) => post == pre && (forall|i: int|
            0 <= i < pre.messages@.len() && (#[trigger] pre.messages@[i].id@) == id
                ==> pre.messages@[i].status == MsgStatus::Deleted || dlq_arn_of(
                pre,
                pre.messages@[i].queue_name@,
            ) matches None),
        Err(e) => post == pre && (e matches QueueError::Duplicate) && pre.has_dlq_row(id)
            && (exists|i: int|
            {
                &&& 0 <= i < pre.messages@.len()
                &&& (#[trigger] pre.messages@[i].id@) == id
                &&& pre.messages@[i].status != MsgStatus::Deleted
                &&& dlq_arn_of(pre, pre.messages@[i].queue_name@) matches Some(_)
            }),
    }
}

impl Database {
    /// The index of the dead-letter record with the given id, if any.
    fn find_dlq(&self, id: &str) -> (r: Option<usize>)
        ensures
            match r {
                Some(i) => i < self.dlq@.len() && self.dlq@[i as int].id@ == id@,
                None => !self.has_dlq_row(id@),
            },
    {
        let n = self.dlq.len();
        let mut k: usize = 0;
        while k < n
            invariant
                n == self.dlq@.len(),
                k <= n,
                forall|j: int| 0 <= j < k ==> self.dlq@[j].id@ != id@,
            decreases n - k,
        {
            if str_eq(self.dlq[k].id.as_str(), id) {
                return Some(k);
            }
            k = k + 1;
        }
        None
    }

    /// Inserts a dead-letter record at its position in the newest-first
    /// order.
    fn insert_dlq_row(&mut self, row: DlqRow)
        requires
            old(self).wf(),
            !old(self).has_dlq_row(row.id@),
        ensures
            final(self).wf(),
            final(self).queues == old(self).queues,
            final(self).configs == old(self).configs,
            final(self).messages == old(self).messages,
            exists|k: int|
                {
                    &&& 0 <= k < final(self).dlq@.len()
                    &&& k <= old(self).dlq@.len()
                    &&& final(self).dlq@ == old(self).dlq@.insert(k, #[trigger] post_dlq_at(*final(self), k))
                    &&& post_dlq_at(*final(self), k) == row
                },
    {
        let n = self.dlq.len();
        let mut k: usize = 0;
        while k < n && self.dlq[k].moved_at > row.moved_at
            invariant
                *self == *old(self),
                self.wf(),
                n == self.dlq@.len(),
                k <= n,
                forall|j: int| 0 <= j < k ==> self.dlq@[j].moved_at > row.moved_at,
            decreases n - k,
        {
            k = k + 1;
        }
        let ghost ds = self.dlq@;
        let ghost pos = k as int;
        self.dlq.insert(k, row);
        proof {
            let ns = self.dlq@;
            assert(ns[pos] == row);
            assert forall|a: int, b: int| 0 <= a < b < ns.len() implies ns[a].id@ != ns[b].id@
                && ns[a].moved_at >= ns[b].moved_at by {
                let a0: int = if a < pos { a } else { a - 1 };
                let b0: int = if b < pos { b } else { b - 1 };
                if a == pos {
                    assert(ns[b] == ds[b0]);
                    assert(ds[b0].id@ != row.id@);
                    if b0 > pos {
                        assert(ds[pos].moved_at >= ds[b0].moved_at);
                    }
                } else if b == pos {
                    assert(ns[a] == ds[a0]);
                    assert(ds[a0].id@ != row.id@);
                } else {
                    assert(ns[a] == ds[a0] && ns[b] == ds[b0]);
                }
            }
            assert(ns == ds.insert(pos, ns[pos]));
            assert(post_dlq_at(*self, pos) == row);
            assert(self.dlq@ == old(self).dlq@.insert(pos, post_dlq_at(*self, pos)));
        }
    }

    /// Moves the message to the dead-letter table of its queue's configured
    /// target: one record appears there, the live row disappears, in one
    /// step. Yields `false`, changing nothing, when the message is missing
    /// or deleted or its queue has no dead-letter target.
    pub fn move_message_to_dlq(
        &mut self,
        message_id: &str,
        failure_reason: &str,
        now: u64,
    ) -> (r: Result<bool, QueueError>)
        requires
            old(self).wf(),
        ensures
            final(self).wf(),
            move_to_dlq_outcome(
                *old(self),
                *final(self),
                message_id@,
                failure_reason@,
                now,
                r,
            ),
    {
        let i = match self.find_message(message_id) {
            Some(i) => i,
            None => {
                proof {
                    lemma_evolved_refl(self.messages@);
                }
                return Ok(false);
            },
        };
        let deleted = match self.messages[i].status {
            MsgStatus::Deleted => true,
            _ => false,
        };
        if deleted {
            proof {
                lemma_evolved_refl(self.messages@);
                assert forall|j: int|
                    0 <= j < self.messages@.len() && (#[trigger] self.messages@[j].id@)
                        == message_id@ implies self.messages@[j].status == MsgStatus::Deleted by {
                    if j < i as int {
                        assert(self.messages@[j].id@ != self.messages@[i as int].id@);
                    }
                    if j > i as int {
                        assert(self.messages@[i as int].id@ != self.messages@[j].id@);
                    }
                }
            }
            return Ok(false);
        }
        let arn = match self.get_queue_config(self.messages[i].queue_name.as_str()) {
            Some(c) => match c.dead_letter_target_arn {
                Some(a) => a,
                None => {
                    proof {
                        lemma_evolved_refl(self.messages@);
                        assert forall|j: int|
                            0 <= j < self.messages@.len() && (#[trigger] self.messages@[j].id@)
                                == message_id@ implies dlq_arn_of(
                            *self,
                            self.messages@[j].queue_name@,
                        ) matches None by {
                            if j < i as int {
                                assert(self.messages@[j].id@ != self.messages@[i as int].id@);
                            }
                            if j > i as int {
                                assert(self.messages@[i as int].id@ != self.messages@[j].id@);
                            }
                        }
                    }
                    return Ok(false);
                },
            },
            None => {
                proof {
                    lemma_evolved_refl(self.messages@);
                    assert forall|j: int|
                        0 <= j < self.messages@.len() && (#[trigger] self.messages@[j].id@)
                            == message_id@ implies dlq_arn_of(
                        *self,
                        self.messages@[j].queue_name@,
                    ) matches None by {
                        if j < i as int {
                            assert(self.messages@[j].id@ != self.messages@[i as int].id@);
                        }
                        if j > i as int {
                            assert(self.messages@[i as int].id@ != self.messages@[j].id@);
                        }
                    }
                }
                return Ok(false);
            },
        };
        if self.find_dlq(message_id).is_some() {
            proof {
                lemma_evolved_refl(self.messages@);
            }
            return Err(QueueError::Duplicate);
        }
        let m = &self.messages[i];
        let row = DlqRow {
            id: m.id.clone(),
            original_queue: m.queue_name.clone(),
            dlq_queue: crate::strutil::str_after_last_slash(arn.as_str()),
            failure_reason: failure_reason.to_owned(),
            moved_at: now,
            original_body: m.body.clone(),
            original_attributes: crate::strutil::clone_opt_string(&m.attributes),
            receive_count: m.receive_count,
            original_created_at: m.created_at,
        };
        proof {
            assert(dlq_row_matches(row, self.messages@[i as int], arn@, failure_reason@, now));
        }
        self.insert_dlq_row(row);
        let ghost dbmid = *self;
        let ghost mid = self.messages@;
        self.messages.remove(i);
        proof {
            lemma_msgs_wf_remove(mid, i as int);
            lemma_evolved_refl(mid);
            lemma_evolved_remove(mid, mid, i as int);
            let pre = *old(self);
            let k = choose|k: int|
                {
                    &&& 0 <= k < dbmid.dlq@.len()
                    &&& k <= pre.dlq@.len()
                    &&& dbmid.dlq@ == pre.dlq@.insert(k, #[trigger] post_dlq_at(dbmid, k))
                    &&& post_dlq_at(dbmid, k) == row
                };
            assert(self.dlq@ == dbmid.dlq@);
            assert(self.dlq@[k] == row);
            assert(self.dlq@ == pre.dlq@.insert(k, self.dlq@[k]));
            assert(dlq_row_matches(self.dlq@[k], pre.messages@[i as int], arn@, failure_reason@, now));
            assert(dlq_arn_of(pre, pre.messages@[i as int].queue_name@) matches Some(a) && a == arn@);
            assert(promoted(pre, *self, message_id@, failure_reason@, now));
        }
        Ok(true)
    }
}

} // verus!

verus! {

/// How many messages one receive call may deliver: the requested number,
/// capped at ten.
pub open spec fn batch_cap(m: u32) -> int {
    if m > 10 {
        10
    } else {
        m as int
    }
}

impl Database {
    /// Receives up to `max_messages` (at most ten) messages from the queue:
    /// repeatedly takes the head; one that would cross the receive limit is
    /// marked and moved to the dead-letter table instead of being delivered,
    /// and selection goes on. Every delivered message is leased in the final
    /// state; fewer deliveries than asked for means no eligible message is
    /// left.
    pub fn receive_messages(&mut self, queue_name: &str, max_messages: u32, now: u64) -> (r: Vec<
        DeliveredMsg,
    >)
        requires
            old(self).wf(),
        ensures
            final(self).wf(),
            final(self).queues == old(self).queues,
            final(self).configs == old(self).configs,
            r@.len() <= batch_cap(max_messages),
            forall|x: int|
                0 <= x < r@.len() ==> delivered_row(*final(self), #[trigger] r@[x], queue_name@, now),
            r@.len() < batch_cap(max_messages) ==> (forall|j: int|
                0 <= j < final(self).messages@.len() ==> !eligible(
                    #[trigger] final(self).messages@[j],
                    queue_name@,
                    now,
                )),
            rows_evolved(old(self).messages@, final(self).messages@),
            old(self).dlq@.len() <= final(self).dlq@.len(),
            exists|reason: Seq<char>, trace: Seq<ReceiveOutcome>|
                {
                    &&& #[trigger] receive_trace(
                        *old(self),
                        *final(self),
                        queue_name@,
                        now,
                        reason,
                        trace,
                    )
                    &&& r@ == delivered_of(trace)
                    &&& receive_trace_complete(trace, batch_cap(max_messages))
                },
    {
        let ghost q = queue_name@;
        let cap: usize = if max_messages > 10 {
            10
        } else {
            max_messages as usize
        };
        let mut out: Vec<DeliveredMsg> = Vec::new();
        let mut done: bool = false;
        let reason = build_limit_reason();
        let ghost mut trace: Seq<ReceiveOutcome> = Seq::empty();
        proof {
            lemma_evolved_refl(self.messages@);
            assert(delivered_of(trace) =~= Seq::<DeliveredMsg>::empty());
        }
        while !done && out.len() < cap
            invariant
                self.wf(),
                q == queue_name@,
                self.queues == old(self).queues,
                self.configs == old(self).configs,
                cap as int == batch_cap(max_messages),
                out@.len() <= cap,
                rows_evolved(old(self).messages@, self.messages@),
                old(self).dlq@.len() <= self.dlq@.len(),
                receive_trace(*old(self), *self, q, now, reason@, trace),
                out@ == delivered_of(trace),
                !done ==> (forall|i: int|
                    0 <= i < trace.len() ==> !((#[trigger] trace[i])
                        matches ReceiveOutcome::Empty)),
                done ==> trace.len() > 0 && (trace.last() matches ReceiveOutcome::Empty) && (
                forall|i: int|
                    0 <= i < trace.len() - 1 ==> !((#[trigger] trace[i])
                        matches ReceiveOutcome::Empty)),
                forall|x: int|
                    0 <= x < out@.len() ==> delivered_row(*self, #[trigger] out@[x], q, now),
                done ==> (forall|j: int|
                    0 <= j < self.messages@.len() ==> !eligible(
                        #[trigger] self.messages@[j],
                        q,
                        now,
                    )),
            decreases eligible_count(self.messages@, q, now) + (if done {
                0int
            } else {
                1int
            }),
        {
            let ghost pre_step = *self;
            let step = self.receive_step(queue_name, now);
            let ghost step_spec = step;
            match step {
                ReceiveOutcome::Empty => {
                    proof {
                        lemma_receive_trace_snoc_plain(
                            *old(self),
                            pre_step,
                            *self,
                            q,
                            now,
                            reason@,
                            trace,
                            step_spec,
                        );
                        lemma_delivered_of_snoc(trace, step_spec);
                        trace = trace.push(step_spec);
                        assert(out@ =~= delivered_of(trace));
                    }
                    done = true;
                },
                ReceiveOutcome::Delivered(id, body, created, attrs) => {
                    proof {
                        let i = choose|i: int|
                            {
                                &&& #[trigger] head_at(
                                    pre_step.messages@,
                                    q,
                                    now,
                                    pre_step.fifo_of(q),
                                    i,
                                )
                                &&& !over_limit(pre_step, pre_step.messages@[i])
                                &&& self.messages@ == pre_step.messages@.update(
                                    i,
                                    received_update(
                                        pre_step.messages@[i],
                                        now,
                                        pre_step.visibility_ms(q),
                                    ),
                                )
                                &&& id@ == pre_step.messages@[i].id@
                                &&& body@ == pre_step.messages@[i].body@
                                &&& created == pre_step.messages@[i].created_at
                                &&& opt_view(attrs) == opt_view(pre_step.messages@[i].attributes)
                            };
                        let m0 = pre_step.messages@[i];
                        let m2 = received_update(m0, now, pre_step.visibility_ms(q));
                        assert(pre_step.visibility_ms(q) >= 0);
                        assert(m2.visibility_deadline matches Some(d) && d >= now);
                        assert(!eligible(m2, q, now));
                        lemma_elig_count_update_drop(pre_step.messages@, q, now, i, m2);
                        lemma_evolved_update(old(self).messages@, pre_step.messages@, i, m2);
                        assert forall|x: int| 0 <= x < out@.len() implies delivered_row(
                            *self,
                            #[trigger] out@[x],
                            q,
                            now,
                        ) by {
                            let j = choose|j: int|
                                {
                                    &&& 0 <= j < pre_step.messages@.len()
                                    &&& (#[trigger] pre_step.messages@[j].id@) == out@[x].0@
                                    &&& pre_step.messages@[j].queue_name@ == q
                                    &&& pre_step.messages@[j].body@ == out@[x].1@
                                    &&& pre_step.messages@[j].created_at == out@[x].2
                                    &&& opt_view(pre_step.messages@[j].attributes) == opt_view(
                                        out@[x].3,
                                    )
                                    &&& pre_step.messages@[j].status == MsgStatus::Processing
                                    &&& (pre_step.messages@[j].visibility_deadline matches Some(d)
                                        && d >= now)
                                    &&& pre_step.messages@[j].receive_count >= 1
                                };
                            assert(j != i);
                            assert(self.messages@[j] == pre_step.messages@[j]);
                        }
                        assert(delivered_row(*self, (id, body, created, attrs), q, now)) by {
                            assert(self.messages@[i].id@ == id@);
                        }
                        lemma_receive_trace_snoc_plain(
                            *old(self),
                            pre_step,
                            *self,
                            q,
                            now,
                            reason@,
                            trace,
                            step_spec,
                        );
                        lemma_delivered_of_snoc(trace, step_spec);
                        trace = trace.push(step_spec);
                    }
                    out.push((id, body, created, attrs));
                    proof {
                        assert(out@ =~= delivered_of(trace));
                    }
                },
                ReceiveOutcome::Marked(id) => {
                    proof {
                        let i = choose|i: int|
                            {
                                &&& #[trigger] head_at(
                                    pre_step.messages@,
                                    q,
                                    now,
                                    pre_step.fifo_of(q),
                                    i,
                                )
                                &&& over_limit(pre_step, pre_step.messages@[i])
                                &&& self.messages@ == pre_step.messages@.update(
                                    i,
                                    marked_update(pre_step.messages@[i]),
                                )
                                &&& id@ == pre_step.messages@[i].id@
                            };
                        let m0 = pre_step.messages@[i];
                        let m2 = marked_update(m0);
                        assert(!eligible(m2, q, now));
                        lemma_elig_count_update_drop(pre_step.messages@, q, now, i, m2);
                        lemma_evolved_update(old(self).messages@, pre_step.messages@, i, m2);
                        assert forall|x: int| 0 <= x < out@.len() implies delivered_row(
                            *self,
                            #[trigger] out@[x],
                            q,
                            now,
                        ) by {
                            let j = choose|j: int|
                                {
                                    &&& 0 <= j < pre_step.messages@.len()
                                    &&& (#[trigger] pre_step.messages@[j].id@) == out@[x].0@
                                    &&& pre_step.messages@[j].queue_name@ == q
                                    &&& pre_step.messages@[j].body@ == out@[x].1@
                                    &&& pre_step.messages@[j].created_at == out@[x].2
                                    &&& opt_view(pre_step.messages@[j].attributes) == opt_view(
                                        out@[x].3,
                                    )
                                    &&& pre_step.messages@[j].status == MsgStatus::Processing
                                    &&& (pre_step.messages@[j].visibility_deadline matches Some(d)
                                        && d >= now)
                                    &&& pre_step.messages@[j].receive_count >= 1
                                };
                            assert(j != i);
                            assert(self.messages@[j] == pre_step.messages@[j]);
                        }
                    }
                    let ghost pre_move = *self;
                    let moved = self.move_message_to_dlq(id.as_str(), reason.as_str(), now);
                    proof {
                        let orig = old(self).messages@;
                        match moved {
                            Ok(true) => {
                                let irm = choose|irm: int|
                                    {
                                        &&& 0 <= irm < pre_move.messages@.len()
                                        &&& (#[trigger] pre_move.messages@[irm].id@) == id@
                                        &&& pre_move.messages@[irm].status != MsgStatus::Deleted
                                        &&& self.messages@ == pre_move.messages@.remove(irm)
                                        &&& (dlq_arn_of(
                                            pre_move,
                                            pre_move.messages@[irm].queue_name@,
                                        ) matches Some(arn) && exists|k: int|
                                            {
                                                &&& 0 <= k < self.dlq@.len()
                                                &&& k <= pre_move.dlq@.len()
                                                &&& self.dlq@ == pre_move.dlq@.insert(
                                                    k,
                                                    #[trigger] self.dlq@[k],
                                                )
                                                &&& dlq_row_matches(
                                                    self.dlq@[k],
                                                    pre_move.messages@[irm],
                                                    arn,
                                                    reason@,
                                                    now,
                                                )
                                            })
                                    };
                                assert(pre_move.messages@[irm].status == MsgStatus::DlqPending);
                                assert(!eligible(pre_move.messages@[irm], q, now));
                                lemma_elig_count_remove_nonelig(pre_move.messages@, q, now, irm);
                                lemma_evolved_remove(orig, pre_move.messages@, irm);
                                assert forall|x: int| 0 <= x < out@.len() implies delivered_row(
                                    *self,
                                    #[trigger] out@[x],
                                    q,
                                    now,
                                ) by {
                                    let j = choose|j: int|
                                        {
                                            &&& 0 <= j < pre_move.messages@.len()
                                            &&& (#[trigger] pre_move.messages@[j].id@)
                                                == out@[x].0@
                                            &&& pre_move.messages@[j].queue_name@ == q
                                            &&& pre_move.messages@[j].body@ == out@[x].1@
                                            &&& pre_move.messages@[j].created_at == out@[x].2
                                            &&& opt_view(pre_move.messages@[j].attributes)
                                                == opt_view(out@[x].3)
                                            &&& pre_move.messages@[j].status
                                                == MsgStatus::Processing
                                            &&& (pre_move.messages@[j].visibility_deadline
                                                matches Some(d) && d >= now)
                                            &&& pre_move.messages@[j].receive_count >= 1
                                        };
                                    assert(j != irm);
                                    let j2: int = if j < irm {
                                        j
                                    } else {
                                        j - 1
                                    };
                                    assert(self.messages@[j2] == pre_move.messages@[j]);
                                }
                            },
                            _ => {},
                        }
                        assert(step_spec == ReceiveOutcome::Marked(id));
                        lemma_receive_trace_snoc_marked(
                            *old(self),
                            pre_step,
                            pre_move,
                            *self,
                            q,
                            now,
                            reason@,
                            trace,
                            id,
                            moved,
                        );
                        lemma_delivered_of_snoc(trace, step_spec);
                        trace = trace.push(step_spec);
                        assert(out@ =~= delivered_of(trace));
                    }
                },
            }
        }
        proof {
            if !done {
                assert(out@.len() == cap);
            }
            assert(receive_trace(*old(self), *self, q, now, reason@, trace));
            assert(receive_trace_complete(trace, cap as int));
        }
        out
    }

    /// Receives at most one message from the queue.
    pub fn receive_message(&mut self, queue_name: &str, now: u64) -> (r: Option<DeliveredMsg>)
        requires
            old(self).wf(),
        ensures
            final(self).wf(),
            final(self).queues == old(self).queues,
            final(self).configs == old(self).configs,
            rows_evolved(old(self).messages@, final(self).messages@),
            old(self).dlq@.len() <= final(self).dlq@.len(),
            match r {
                Some(t) => delivered_row(*final(self), t, queue_name@, now),
                None => forall|j: int|
                    0 <= j < final(self).messages@.len() ==> !eligible(
                        #[trigger] final(self).messages@[j],
                        queue_name@,
                        now,
                    ),
            },
            exists|reason: Seq<char>, trace: Seq<ReceiveOutcome>|
                {
                    &&& #[trigger] receive_trace(
                        *old(self),
                        *final(self),
                        queue_name@,
                        now,
                        reason,
                        trace,
                    )
                    &&& receive_trace_complete(trace, 1)
                    &&& match r {
                        Some(t) => delivered_of(trace) == seq![t],
                        None => delivered_of(trace).len() == 0,
                    }
                },
    {
        let mut v = self.receive_messages(queue_name, 1, now);
        let ghost vs = v@;
        let r = v.pop();
        proof {
            let (reason, trace) = choose|reason: Seq<char>, trace: Seq<ReceiveOutcome>|
                {
                    &&& #[trigger] receive_trace(*old(self), *self, queue_name@, now, reason, trace)
                    &&& vs == delivered_of(trace)
                    &&& receive_trace_complete(trace, batch_cap(1))
                };
            match &r {
                Some(t) => {
                    assert(vs.len() == 1);
                    assert(*t == vs[0]);
                    assert(delivered_of(trace) =~= seq![*t]);
                },
                None => {
                    assert(vs.len() == 0);
                },
            }
        }
        r
    }
}

/// The reason recorded when a message crosses its queue's receive limit.
fn build_limit_reason() -> (r: String)
    ensures
        r@.len() > 0,
{
    proof {
        reveal_strlit("Message exceeded max receive count");
    }
    "Message exceeded max receive count".to_owned()
}

} // verus!

verus! {

/// The row after a logical delete.
pub open spec fn deleted_update(m: MessageRow, now: u64) -> MessageRow {
    MessageRow { status: MsgStatus::Deleted, deleted_at: Some(now), ..m }
}

/// The row after an administrative restore.
pub open spec fn restored_update(m: MessageRow) -> MessageRow {
    MessageRow { status: MsgStatus::Active, deleted_at: None, visibility_deadline: None, ..m }
}

/// A restore would change nothing on this row.
pub open spec fn already_restored(m: MessageRow) -> bool {
    m.status == MsgStatus::Active && (m.deleted_at matches None) && (m.visibility_deadline
        matches None)
}

/// A lease that has expired by `now`: processing, deadline passed.
pub open spec fn lease_expired(m: MessageRow, now: u64) -> bool {
    m.status == MsgStatus::Processing && (m.visibility_deadline matches Some(d) && d < now)
}

/// The row after a lease reclaim.
pub open spec fn unleashed(m: MessageRow) -> MessageRow {
    MessageRow { status: MsgStatus::Active, visibility_deadline: None, ..m }
}

/// How many leases of the whole table have expired by `now`.
pub open spec fn count_expired(s: Seq<MessageRow>, now: u64) -> nat
    decreases s.len(),
{
    if s.len() == 0 {
        0
    } else {
        count_expired(s.drop_last(), now) + if lease_expired(s.last(), now) {
            1nat
        } else {
            0nat
        }
    }
}

/// The active rows of queue `q`, in table order.
pub open spec fn active_msgs_of(s: Seq<MessageRow>, q: Seq<char>) -> Seq<MessageRow>
    decreases s.len(),
{
    if s.len() == 0 {
        s
    } else {
        let rest = active_msgs_of(s.drop_last(), q);
        if s.last().queue_name@ == q && s.last().status == MsgStatus::Active {
            rest.push(s.last())
        } else {
            rest
        }
    }
}

/// All rows of queue `q`, in table order.
pub open spec fn all_msgs_of(s: Seq<MessageRow>, q: Seq<char>) -> Seq<MessageRow>
    decreases s.len(),
{
    if s.len() == 0 {
        s
    } else {
        let rest = all_msgs_of(s.drop_last(), q);
        if s.last().queue_name@ == q {
            rest.push(s.last())
        } else {
            rest
        }
    }
}

/// The dead-letter records of queue `dlqn`, in table order (newest first).
pub open spec fn dlq_of(s: Seq<DlqRow>, dlqn: Seq<char>) -> Seq<DlqRow>
    decreases s.len(),
{
    if s.len() == 0 {
        s
    } else {
        let rest = dlq_of(s.drop_last(), dlqn);
        if s.last().dlq_queue@ == dlqn {
            rest.push(s.last())
        } else {
            rest
        }
    }
}

/// The dead-letter table without the records of queue `dlqn`.
pub open spec fn dlq_without(s: Seq<DlqRow>, dlqn: Seq<char>) -> Seq<DlqRow>
    decreases s.len(),
{
    if s.len() == 0 {
        s
    } else {
        let rest = dlq_without(s.drop_last(), dlqn);
        if s.last().dlq_queue@ == dlqn {
            rest
        } else {
            rest.push(s.last())
        }
    }
}

/// How many active messages queue `q` holds.
pub open spec fn count_active(s: Seq<MessageRow>, q: Seq<char>) -> nat
    decreases s.len(),
{
    if s.len() == 0 {
        0
    } else {
        count_active(s.drop_last(), q) + if s.last().queue_name@ == q && s.last().status
            == MsgStatus::Active {
            1nat
        } else {
            0nat
        }
    }
}

/// How many active messages of queue `q` are visible at `now`.
pub open spec fn count_visible(s: Seq<MessageRow>, q: Seq<char>, now: u64) -> nat
    decreases s.len(),
{
    if s.len() == 0 {
        0
    } else {
        count_visible(s.drop_last(), q, now) + if s.last().queue_name@ == q && s.last().status
            == MsgStatus::Active && visible_at(s.last(), now) {
            1nat
        } else {
            0nat
        }
    }
}

/// A count clamped into `u32`.
pub open spec fn sat32(x: int) -> u32 {
    if x > u32::MAX as int {
        u32::MAX
    } else {
        x as u32
    }
}

/// Removing one record preserves the dead-letter invariants.
pub proof fn lemma_dlq_wf_remove(s: Seq<DlqRow>, i: int)
    requires
        dlq_wf(s),
        0 <= i < s.len(),
    ensures
        dlq_wf(s.remove(i)),
{
    let ns = s.remove(i);
    assert forall|a: int, b: int| 0 <= a < b < ns.len() implies ns[a].id@ != ns[b].id@
        && ns[a].moved_at >= ns[b].moved_at by {
        let a0: int = if a < i { a } else { a + 1 };
        let b0: int = if b < i { b } else { b + 1 };
        assert(ns[a] == s[a0] && ns[b] == s[b0]);
    }
}

impl Database {
    /// Marks the message logically deleted. Yields `true` exactly when a
    /// live (not yet deleted) row with this id existed; deleting again is a
    /// no-op that yields `false`.
    pub fn delete_message(&mut self, message_id: &str, now: u64) -> (r: Result<bool, QueueError>)
        requires
            old(self).wf(),
        ensures
            final(self).wf(),
            final(self).queues == old(self).queues,
            final(self).configs == old(self).configs,
            final(self).dlq == old(self).dlq,
            rows_evolved(old(self).messages@, final(self).messages@),
            match r {
                Ok(true) => exists|i: int|
                    {
                        &&& 0 <= i < old(self).messages@.len()
                        &&& (#[trigger] old(self).messages@[i].id@) == message_id@
                        &&& old(self).messages@[i].status != MsgStatus::Deleted
                        &&& final(self).messages@ == old(self).messages@.update(
                            i,
                            deleted_update(old(self).messages@[i], now),
                        )
                    },
                Ok(false) => *final(self) == *old(self) && (forall|i: int|
                    0 <= i < old(self).messages@.len() && (#[trigger] old(
                        self,
                    ).messages@[i].id@) == message_id@ ==> old(self).messages@[i].status
                        == MsgStatus::Deleted),
                Err(_) => false,
            },
    {
        let i = match self.find_message(message_id) {
            Some(i) => i,
            None => {
                proof {
                    lemma_evolved_refl(self.messages@);
                }
                return Ok(false);
            },
        };
        let is_deleted = match self.messages[i].status {
            MsgStatus::Deleted => true,
            _ => false,
        };
        if is_deleted {
            proof {
                lemma_evolved_refl(self.messages@);
                assert forall|j: int|
                    0 <= j < self.messages@.len() && (#[trigger] self.messages@[j].id@)
                        == message_id@ implies self.messages@[j].status == MsgStatus::Deleted by {
                    if j != i as int {
                        assert(self.messages@[j].id@ != self.messages@[i as int].id@ || self
                            .messages@[i as int].id@ != self.messages@[j].id@);
                    }
                }
            }
            return Ok(false);
        }
        let mut row = self.messages[i].duplicate();
        row.status = MsgStatus::Deleted;
        row.deleted_at = Some(now);
        proof {
            assert(row == deleted_update(self.messages@[i as int], now));
            lemma_msgs_wf_update(self.messages@, i as int, row);
            lemma_evolved_refl(self.messages@);
            lemma_evolved_update(self.messages@, self.messages@, i as int, row);
        }
        self.messages.set(i, row);
        Ok(true)
    }

    /// Restores the message to `active`, clearing its deletion mark and
    /// visibility deadline. Yields `true` exactly when this changed the row.
    pub fn restore_message(&mut self, message_id: &str) -> (r: Result<bool, QueueError>)
        requires
            old(self).wf(),
        ensures
            final(self).wf(),
            final(self).queues == old(self).queues,
            final(self).configs == old(self).configs,
            final(self).dlq == old(self).dlq,
            rows_evolved(old(self).messages@, final(self).messages@),
            match r {
                Ok(true) => exists|i: int|
                    {
                        &&& 0 <= i < old(self).messages@.len()
                        &&& (#[trigger] old(self).messages@[i].id@) == message_id@
                        &&& !already_restored(old(self).messages@[i])
                        &&& final(self).messages@ == old(self).messages@.update(
                            i,
                            restored_update(old(self).messages@[i]),
                        )
                    },
                Ok(false) => *final(self) == *old(self) && (forall|i: int|
                    0 <= i < old(self).messages@.len() && (#[trigger] old(
                        self,
                    ).messages@[i].id@) == message_id@ ==> already_restored(
                        old(self).messages@[i],
                    )),
                Err(_) => false,
            },
    {
        let i = match self.find_message(message_id) {
            Some(i) => i,
            None => {
                proof {
                    lemma_evolved_refl(self.messages@);
                }
                return Ok(false);
            },
        };
        let unchanged = (match self.messages[i].status {
            MsgStatus::Active => true,
            _ => false,
        }) && self.messages[i].deleted_at.is_none() && self.messages[i].visibility_deadline
            .is_none();
        if unchanged {
            proof {
                lemma_evolved_refl(self.messages@);
                assert forall|j: int|
                    0 <= j < self.messages@.len() && (#[trigger] self.messages@[j].id@)
                        == message_id@ implies already_restored(self.messages@[j]) by {
                    if j != i as int {
                        assert(self.messages@[j].id@ != self.messages@[i as int].id@ || self
                            .messages@[i as int].id@ != self.messages@[j].id@);
                    }
                }
            }
            return Ok(false);
        }
        let mut row = self.messages[i].duplicate();
        row.status = MsgStatus::Active;
        row.deleted_at = None;
        row.visibility_deadline = None;
        proof {
            assert(row == restored_update(self.messages@[i as int]));
            lemma_msgs_wf_update(self.messages@, i as int, row);
            lemma_evolved_refl(self.messages@);
            lemma_evolved_update(self.messages@, self.messages@, i as int, row);
        }
        self.messages.set(i, row);
        Ok(true)
    }

    /// The active messages of the queue, in table order.
    pub fn get_queue_messages(&self, queue_name: &str) -> (r: Vec<MessageRow>)
        requires
            self.wf(),
        ensures
            r@ == active_msgs_of(self.messages@, queue_name@),
    {
        let n = self.messages.len();
        let mut out: Vec<MessageRow> = Vec::new();
        let mut k: usize = 0;
        proof {
            assert(self.messages@.subrange(0, 0) =~= Seq::<MessageRow>::empty());
        }
        while k < n
            invariant
                self.wf(),
                n == self.messages@.len(),
                k <= n,
                out@ == active_msgs_of(self.messages@.subrange(0, k as int), queue_name@),
            decreases n - k,
        {
            proof {
                assert(self.messages@.subrange(0, k + 1).drop_last() =~= self.messages@.subrange(
                    0,
                    k as int,
                ));
                assert(self.messages@.subrange(0, k + 1).last() == self.messages@[k as int]);
            }
            let m = &self.messages[k];
            let active = match m.status {
                MsgStatus::Active => true,
                _ => false,
            };
            if active && str_eq(m.queue_name.as_str(), queue_name) {
                out.push(m.duplicate());
            }
            k = k + 1;
        }
        proof {
            assert(self.messages@.subrange(0, n as int) =~= self.messages@);
        }
        out
    }

    /// Every message of the queue, whatever its state, in table order.
    pub fn get_all_queue_messages(&self, queue_name: &str) -> (r: Vec<MessageRow>)
        requires
            self.wf(),
        ensures
            r@ == all_msgs_of(self.messages@, queue_name@),
    {
        let n = self.messages.len();
        let mut out: Vec<MessageRow> = Vec::new();
        let mut k: usize = 0;
        proof {
            assert(self.messages@.subrange(0, 0) =~= Seq::<MessageRow>::empty());
        }
        while k < n
            invariant
                self.wf(),
                n == self.messages@.len(),
                k <= n,
                out@ == all_msgs_of(self.messages@.subrange(0, k as int), queue_name@),
            decreases n - k,
        {
            proof {
                assert(self.messages@.subrange(0, k + 1).drop_last() =~= self.messages@.subrange(
                    0,
                    k as int,
                ));
                assert(self.messages@.subrange(0, k + 1).last() == self.messages@[k as int]);
            }
            let m = &self.messages[k];
            if str_eq(m.queue_name.as_str(), queue_name) {
                out.push(m.duplicate());
            }
            k = k + 1;
        }
        proof {
            assert(self.messages@.subrange(0, n as int) =~= self.messages@);
        }
        out
    }

    /// The queue's approximate counts: visible active messages, in-flight
    /// active messages, and the creation instant. A message still inside
    /// its delivery delay is counted as not visible: a delay hides the
    /// message exactly as a live lease does.
    pub fn get_queue_attributes(&self, queue_name: &str, now: u64) -> (r: Option<QueueAttributes>)
        requires
            self.wf(),
        ensures
            match r {
                Some(a) => {
                    &&& self.has_queue(queue_name@)
                    &&& a.approximate_number_of_messages == sat32(
                        count_visible(self.messages@, queue_name@, now) as int,
                    )
                    &&& a.approximate_number_of_messages_not_visible == sat32(
                        count_active(self.messages@, queue_name@) as int - count_visible(
                            self.messages@,
                            queue_name@,
                            now,
                        ) as int,
                    )
                    &&& exists|i: int|
                        0 <= i < self.queues@.len() && (#[trigger] self.queues@[i].name@)
                            == queue_name@ && a.created_timestamp == self.queues@[i].created_at
                },
                None => !self.has_queue(queue_name@),
            },
    {
        let qi = match self.find_queue(queue_name) {
            Some(i) => i,
            None => {
                return None;
            },
        };
        let created = self.queues[qi].created_at;
        let n = self.messages.len();
        let mut act: usize = 0;
        let mut vis: usize = 0;
        let mut k: usize = 0;
        proof {
            assert(self.messages@.subrange(0, 0) =~= Seq::<MessageRow>::empty());
        }
        while k < n
            invariant
                self.wf(),
                n == self.messages@.len(),
                k <= n,
                act as int == count_active(self.messages@.subrange(0, k as int), queue_name@),
                vis as int == count_visible(self.messages@.subrange(0, k as int), queue_name@, now),
                vis <= act <= k,
            decreases n - k,
        {
            proof {
                assert(self.messages@.subrange(0, k + 1).drop_last() =~= self.messages@.subrange(
                    0,
                    k as int,
                ));
                assert(self.messages@.subrange(0, k + 1).last() == self.messages@[k as int]);
            }
            let m = &self.messages[k];
            let active = match m.status {
                MsgStatus::Active => true,
                _ => false,
            };
            if active && str_eq(m.queue_name.as_str(), queue_name) {
                act = act + 1;
                let is_visible = (match m.visibility_deadline {
                    None => true,
                    Some(d) => d < now,
                }) && (match m.delay_until {
                    None => true,
                    Some(d) => d < now,
                });
                if is_visible {
                    vis = vis + 1;
                }
            }
            k = k + 1;
        }
        proof {
            assert(self.messages@.subrange(0, n as int) =~= self.messages@);
        }
        let vis32: u32 = if vis > u32::MAX as usize {
            u32::MAX
        } else {
            vis as u32
        };
        let inflight = act - vis;
        let inflight32: u32 = if inflight > u32::MAX as usize {
            u32::MAX
        } else {
            inflight as u32
        };
        Some(
            QueueAttributes {
                approximate_number_of_messages: vis32,
                approximate_number_of_messages_not_visible: inflight32,
                created_timestamp: created,
            },
        )
    }

    /// Creates the queue and stores its configuration, replacing a previous
    /// configuration of the same name.
    pub fn create_queue_with_config(
        &mut self,
        config: crate::config::QueueConfig,
        now: u64,
    ) -> (r: Result<(), QueueError>)
        requires
            old(self).wf(),
        ensures
            final(self).wf(),
            r matches Ok(_),
            final(self).messages == old(self).messages,
            final(self).dlq == old(self).dlq,
            final(self).has_queue(config.name@),
            final(self).spec_config(config.name@) == Some(config),
            forall|q2: Seq<char>|
                q2 != config.name@ ==> #[trigger] final(self).spec_config(q2) == old(
                    self,
                ).spec_config(q2),
            forall|q2: Seq<char>|
                q2 != config.name@ ==> (#[trigger] final(self).has_queue(q2) == old(
                    self,
                ).has_queue(q2)),
            old(self).has_queue(config.name@) ==> final(self).queues == old(self).queues,
            !old(self).has_queue(config.name@) ==> exists|i: int|
                {
                    &&& 0 <= i <= old(self).queues@.len()
                    &&& #[trigger] final(self).queues@ == old(self).queues@.insert(
                        i,
                        final(self).queues@[i],
                    )
                    &&& final(self).queues@[i].name@ == config.name@
                    &&& final(self).queues@[i].created_at == now
                },
    {
        let name = config.name.clone();
        let _ = self.create_queue(name.as_str(), now);
        self.upsert_config(config);
        Ok(())
    }

    /// Stores the configuration, replacing a previous one of the same name.
    fn upsert_config(&mut self, config: crate::config::QueueConfig)
        requires
            old(self).wf(),
        ensures
            final(self).wf(),
            final(self).queues == old(self).queues,
            final(self).messages == old(self).messages,
            final(self).dlq == old(self).dlq,
            final(self).spec_config(config.name@) == Some(config),
            forall|q2: Seq<char>|
                q2 != config.name@ ==> #[trigger] final(self).spec_config(q2) == old(
                    self,
                ).spec_config(q2),
            forall|q2: Seq<char>|
                #[trigger] final(self).has_queue(q2) == old(self).has_queue(q2),
    {
        let ghost mid = *self;
        let name = config.name.clone();
        match self.find_config(name.as_str()) {
            Some(i) => {
                let ghost cs = self.configs@;
                proof {
                    assert forall|a: int, b: int|
                        0 <= a < b < cs.update(i as int, config).len() implies cs.update(
                        i as int,
                        config,
                    )[a].name@ != cs.update(i as int, config)[b].name@ by {
                        let ns = cs.update(i as int, config);
                        assert(ns[a].name@ == (if a == i as int {
                            config.name@
                        } else {
                            cs[a].name@
                        }));
                        assert(ns[b].name@ == (if b == i as int {
                            config.name@
                        } else {
                            cs[b].name@
                        }));
                        assert(cs[i as int].name@ == config.name@);
                    }
                }
                self.configs.set(i, config);
                proof {
                    self.lemma_config_at(name@, i as int);
                    assert forall|q2: Seq<char>| q2 != name@ implies #[trigger] self.spec_config(
                        q2,
                    ) == mid.spec_config(q2) by {
                        lemma_spec_config_update_other(mid, *self, i as int, q2);
                    }
                    assert forall|q2: Seq<char>| #[trigger] self.has_queue(q2)
                        == mid.has_queue(q2) by {
                        if mid.has_queue(q2) {
                            let jq = choose|jq: int|
                                0 <= jq < mid.queues@.len() && #[trigger] mid.queues@[jq].name@
                                    == q2;
                            assert(self.queues@[jq].name@ == q2);
                        }
                        if self.has_queue(q2) {
                            let jq = choose|jq: int|
                                0 <= jq < self.queues@.len() && #[trigger] self.queues@[jq].name@
                                    == q2;
                            assert(mid.queues@[jq].name@ == q2);
                        }
                    }
                }
            },
            None => {
                let ghost cs = self.configs@;
                proof {
                    assert forall|a: int, b: int|
                        0 <= a < b < cs.push(config).len() implies cs.push(config)[a].name@
                        != cs.push(config)[b].name@ by {
                        let ns = cs.push(config);
                        if b < ns.len() - 1 {
                            assert(ns[a] == cs[a] && ns[b] == cs[b]);
                        } else {
                            assert(ns[a] == cs[a]);
                        }
                    }
                }
                self.configs.push(config);
                proof {
                    self.lemma_config_at(name@, self.configs@.len() - 1);
                    assert forall|q2: Seq<char>| q2 != name@ implies #[trigger] self.spec_config(
                        q2,
                    ) == mid.spec_config(q2) by {
                        lemma_spec_config_push_other(mid, *self, q2);
                    }
                    assert forall|q2: Seq<char>| #[trigger] self.has_queue(q2)
                        == mid.has_queue(q2) by {
                        if mid.has_queue(q2) {
                            let jq = choose|jq: int|
                                0 <= jq < mid.queues@.len() && #[trigger] mid.queues@[jq].name@
                                    == q2;
                            assert(self.queues@[jq].name@ == q2);
                        }
                        if self.has_queue(q2) {
                            let jq = choose|jq: int|
                                0 <= jq < self.queues@.len() && #[trigger] self.queues@[jq].name@
                                    == q2;
                            assert(mid.queues@[jq].name@ == q2);
                        }
                    }
                }
            },
        }
    }

    /// The whole dead-letter table of the named queue, newest first.
    pub fn get_dlq_messages(&self, dlq_name: &str) -> (r: Vec<DlqRow>)
        requires
            self.wf(),
        ensures
            r@ == dlq_of(self.dlq@, dlq_name@),
    {
        let n = self.dlq.len();
        let mut out: Vec<DlqRow> = Vec::new();
        let mut k: usize = 0;
        proof {
            assert(self.dlq@.subrange(0, 0) =~= Seq::<DlqRow>::empty());
        }
        while k < n
            invariant
                self.wf(),
                n == self.dlq@.len(),
                k <= n,
                out@ == dlq_of(self.dlq@.subrange(0, k as int), dlq_name@),
            decreases n - k,
        {
            proof {
                assert(self.dlq@.subrange(0, k + 1).drop_last() =~= self.dlq@.subrange(
                    0,
                    k as int,
                ));
                assert(self.dlq@.subrange(0, k + 1).last() == self.dlq@[k as int]);
            }
            if str_eq(self.dlq[k].dlq_queue.as_str(), dlq_name) {
                out.push(self.dlq[k].duplicate());
            }
            k = k + 1;
        }
        proof {
            assert(self.dlq@.subrange(0, n as int) =~= self.dlq@);
        }
        out
    }

    /// Removes every dead-letter record of the named queue and reports how
    /// many went.
    pub fn purge_dlq(&mut self, dlq_name: &str) -> (r: Result<u32, QueueError>)
        requires
            old(self).wf(),
        ensures
            final(self).wf(),
            final(self).queues == old(self).queues,
            final(self).configs == old(self).configs,
            final(self).messages == old(self).messages,
            final(self).dlq@ == dlq_without(old(self).dlq@, dlq_name@),
            r matches Ok(c) && c == sat32(
                old(self).dlq@.len() - dlq_without(old(self).dlq@, dlq_name@).len(),
            ),
    {
        let ghost orig = self.dlq@;
        let orig_len = self.dlq.len();
        let mut k: usize = 0;
        let ghost mut j: int = 0;
        proof {
            assert(orig.subrange(0, 0) =~= Seq::<DlqRow>::empty());
        }
        while k < self.dlq.len()
            invariant
                old(self).wf(),
                self.queues == old(self).queues,
                self.configs == old(self).configs,
                self.messages == old(self).messages,
                0 <= j <= orig.len(),
                k as int == dlq_without(orig.subrange(0, j), dlq_name@).len(),
                orig_len == orig.len(),
                self.dlq@ == dlq_without(orig.subrange(0, j), dlq_name@) + orig.skip(j),
                dlq_wf(self.dlq@),
            decreases orig.len() - j,
        {
            proof {
                assert(orig.subrange(0, j + 1).drop_last() =~= orig.subrange(0, j));
                assert(self.dlq@[k as int] == orig[j]);
            }
            if str_eq(self.dlq[k].dlq_queue.as_str(), dlq_name) {
                let ghost pre = self.dlq@;
                self.dlq.remove(k);
                proof {
                    lemma_dlq_wf_remove(pre, k as int);
                    assert(self.dlq@ =~= dlq_without(orig.subrange(0, j + 1), dlq_name@)
                        + orig.skip(j + 1));
                    j = j + 1;
                }
            } else {
                proof {
                    assert(dlq_without(orig.subrange(0, j + 1), dlq_name@) =~= dlq_without(
                        orig.subrange(0, j),
                        dlq_name@,
                    ).push(orig[j]));
                    assert(self.dlq@ =~= dlq_without(orig.subrange(0, j + 1), dlq_name@)
                        + orig.skip(j + 1));
                    j = j + 1;
                }
                k = k + 1;
            }
        }
        proof {
            assert(orig.subrange(0, j) =~= orig);
            assert(self.dlq@ =~= dlq_without(orig, dlq_name@));
            lemma_dlq_without_len(orig, dlq_name@);
        }
        let removed = orig_len - self.dlq.len();
        let r32: u32 = if removed > u32::MAX as usize {
            u32::MAX
        } else {
            removed as u32
        };
        Ok(r32)
    }

    /// Reclaims or deletes per the retention mode: in keep-forever mode
    /// every expired lease flips back to `active` and nothing is deleted; in
    /// delete mode rows older than the configured age are removed. Reports
    /// the number of affected rows.
    #[verifier::rlimit(60)]
    pub fn cleanup_expired_messages(
        &mut self,
        retention_config: &crate::config::RetentionConfig,
        now: u64,
    ) -> (r: Result<u32, QueueError>)
        requires
            old(self).wf(),
        ensures
            final(self).wf(),
            cleanup_outcome(*old(self), *final(self), *retention_config, now, r),
    {
        match retention_config.mode {
            crate::config::RetentionMode::KeepForever => {
                let n = self.messages.len();
                let mut k: usize = 0;
                let mut count: usize = 0;
                proof {
                    assert(self.messages@.subrange(0, 0) =~= Seq::<MessageRow>::empty());
                    lemma_evolved_refl(self.messages@);
                }
                while k < n
                    invariant
                        n == self.messages@.len(),
                        n == old(self).messages@.len(),
                        k <= n,
                        count <= k,
                        msgs_wf(self.messages@),
                        self.queues == old(self).queues,
                        self.configs == old(self).configs,
                        self.dlq == old(self).dlq,
                        rows_evolved(old(self).messages@, self.messages@),
                        count as int == count_expired(
                            old(self).messages@.subrange(0, k as int),
                            now,
                        ),
                        forall|i: int|
                            0 <= i < k ==> #[trigger] self.messages@[i] == (if lease_expired(
                                old(self).messages@[i],
                                now,
                            ) {
                                unleashed(old(self).messages@[i])
                            } else {
                                old(self).messages@[i]
                            }),
                        forall|i: int|
                            k <= i < n ==> #[trigger] self.messages@[i] == old(self).messages@[i],
                    decreases n - k,
                {
                    proof {
                        assert(old(self).messages@.subrange(0, k + 1).drop_last() =~= old(
                            self,
                        ).messages@.subrange(0, k as int));
                        assert(old(self).messages@.subrange(0, k + 1).last() == old(
                            self,
                        ).messages@[k as int]);
                    }
                    let m = &self.messages[k];
                    let expired = (match m.status {
                        MsgStatus::Processing => true,
                        _ => false,
                    }) && (match m.visibility_deadline {
                        Some(d) => d < now,
                        None => false,
                    });
                    if expired {
                        let mut row = self.messages[k].duplicate();
                        row.status = MsgStatus::Active;
                        row.visibility_deadline = None;
                        proof {
                            assert(row == unleashed(self.messages@[k as int]));
                            lemma_msgs_wf_update(self.messages@, k as int, row);
                            lemma_evolved_update(
                                old(self).messages@,
                                self.messages@,
                                k as int,
                                row,
                            );
                        }
                        self.messages.set(k, row);
                        count = count + 1;
                    }
                    k = k + 1;
                }
                proof {
                    assert(old(self).messages@.subrange(0, n as int) =~= old(self).messages@);
                }
                let c32: u32 = if count > u32::MAX as usize {
                    u32::MAX
                } else {
                    count as u32
                };
                Ok(c32)
            },
            crate::config::RetentionMode::Delete => {
                let days: u32 = match retention_config.delete_after_days {
                    Some(d) => d,
                    None => 14,
                };
                let cutoff_ms: u64 = (days as u64) * 86400000;
                let ghost orig = self.messages@;
                let orig_len = self.messages.len();
                let mut k: usize = 0;
                let ghost mut j: int = 0;
                proof {
                    assert(orig.subrange(0, 0) =~= Seq::<MessageRow>::empty());
                }
                while k < self.messages.len()
                    invariant
                        self.queues == old(self).queues,
                        self.configs == old(self).configs,
                        self.dlq == old(self).dlq,
                        0 <= j <= orig.len(),
                        orig == old(self).messages@,
                        orig_len == orig.len(),
                        cutoff_ms == retention_cutoff_ms(*retention_config),
                        k as int == retained_msgs(orig.subrange(0, j), cutoff_ms, now).len(),
                        self.messages@ == retained_msgs(orig.subrange(0, j), cutoff_ms, now)
                            + orig.skip(j),
                        msgs_wf(self.messages@),
                    decreases orig.len() - j,
                {
                    proof {
                        assert(orig.subrange(0, j + 1).drop_last() =~= orig.subrange(0, j));
                        assert(self.messages@[k as int] == orig[j]);
                    }
                    let aged = self.messages[k].created_at < now && now - self.messages[k]
                        .created_at > cutoff_ms;
                    if aged {
                        let ghost pre = self.messages@;
                        self.messages.remove(k);
                        proof {
                            lemma_msgs_wf_remove(pre, k as int);
                            assert(self.messages@ =~= retained_msgs(
                                orig.subrange(0, j + 1),
                                cutoff_ms,
                                now,
                            ) + orig.skip(j + 1));
                            j = j + 1;
                        }
                    } else {
                        proof {
                            assert(retained_msgs(orig.subrange(0, j + 1), cutoff_ms, now)
                                =~= retained_msgs(orig.subrange(0, j), cutoff_ms, now).push(
                                orig[j],
                            ));
                            assert(self.messages@ =~= retained_msgs(
                                orig.subrange(0, j + 1),
                                cutoff_ms,
                                now,
                            ) + orig.skip(j + 1));
                            j = j + 1;
                        }
                        k = k + 1;
                    }
                }
                proof {
                    assert(orig.subrange(0, j) =~= orig);
                    assert(self.messages@ =~= retained_msgs(orig, cutoff_ms, now));
                    lemma_retained_evolved(orig, cutoff_ms, now);
                    lemma_retained_len(orig, cutoff_ms, now);
                }
                let removed = orig_len - self.messages.len();
                let c32: u32 = if removed > u32::MAX as usize {
                    u32::MAX
                } else {
                    removed as u32
                };
                Ok(c32)
            },
        }
    }

    /// Accepts a per-queue metric; the store keeps no metric history.
    pub fn record_queue_metric(&mut self, queue_name: &str, metric: &QueueMetric) -> (r: Result<
        (),
        QueueError,
    >)
        requires
            old(self).wf(),
        ensures
            final(self).wf(),
            *final(self) == *old(self),
            r matches Ok(_),
    {
        Ok(())
    }
}

/// What one retention sweep does, for either mode: in keep-forever mode no
/// row appears or vanishes, every expired lease (and nothing else) flips
/// back to `active`, and the flipped rows are counted; in delete mode the
/// table shrinks to exactly the rows younger than the cutoff, and the
/// removed rows are counted.
pub open spec fn cleanup_outcome(
    pre: Database,
    post: Database,
    cfg: crate::config::RetentionConfig,
    now: u64,
    r: Result<u32, QueueError>,
) -> bool {
    &&& post.queues == pre.queues
    &&& post.configs == pre.configs
    &&& post.dlq == pre.dlq
    &&& rows_evolved(pre.messages@, post.messages@)
    &&& cfg.mode == crate::config::RetentionMode::KeepForever ==> {
        &&& post.messages@.len() == pre.messages@.len()
        &&& (forall|i: int|
            0 <= i < pre.messages@.len() ==> #[trigger] post.messages@[i] == (if lease_expired(
                pre.messages@[i],
                now,
            ) {
                unleashed(pre.messages@[i])
            } else {
                pre.messages@[i]
            }))
        &&& r matches Ok(c) && c == sat32(count_expired(pre.messages@, now) as int)
    }
    &&& cfg.mode == crate::config::RetentionMode::Delete ==> {
        &&& post.messages@ == retained_msgs(pre.messages@, retention_cutoff_ms(cfg), now)
        &&& r matches Ok(c) && c == sat32(pre.messages@.len() - post.messages@.len())
    }
}

/// The age bound of delete-mode retention, in milliseconds.
pub open spec fn retention_cutoff_ms(c: crate::config::RetentionConfig) -> u64 {
    (match c.delete_after_days {
        Some(d) => d as int,
        None => 14,
    } * 86400000) as u64
}

/// A message survives delete-mode retention at `now`: it is not older than
/// the cutoff.
pub open spec fn retained(m: MessageRow, cutoff_ms: u64, now: u64) -> bool {
    !(m.created_at < now && now - m.created_at > cutoff_ms)
}

/// The message table after delete-mode retention, in order.
pub open spec fn retained_msgs(s: Seq<MessageRow>, cutoff_ms: u64, now: u64) -> Seq<MessageRow>
    decreases s.len(),
{
    if s.len() == 0 {
        s
    } else {
        let rest = retained_msgs(s.drop_last(), cutoff_ms, now);
        if retained(s.last(), cutoff_ms, now) {
            rest.push(s.last())
        } else {
            rest
        }
    }
}

/// Filtering the dead-letter table never grows it.
pub proof fn lemma_dlq_without_len(s: Seq<DlqRow>, dlqn: Seq<char>)
    ensures
        dlq_without(s, dlqn).len() <= s.len(),
    decreases s.len(),
{
    if s.len() > 0 {
        lemma_dlq_without_len(s.drop_last(), dlqn);
    }
}

/// Retention never grows the message table.
pub proof fn lemma_retained_len(s: Seq<MessageRow>, cutoff_ms: u64, now: u64)
    ensures
        retained_msgs(s, cutoff_ms, now).len() <= s.len(),
    decreases s.len(),
{
    if s.len() > 0 {
        lemma_retained_len(s.drop_last(), cutoff_ms, now);
    }
}

/// What survives retention descends from the original table.
pub proof fn lemma_retained_evolved(s: Seq<MessageRow>, cutoff_ms: u64, now: u64)
    ensures
        rows_evolved(s, retained_msgs(s, cutoff_ms, now)),
    decreases s.len(),
{
    let rs = retained_msgs(s, cutoff_ms, now);
    if s.len() == 0 {
    } else {
        lemma_retained_evolved(s.drop_last(), cutoff_ms, now);
        let prev = retained_msgs(s.drop_last(), cutoff_ms, now);
        assert forall|x: int| 0 <= x < rs.len() implies descends_from(s, #[trigger] rs[x]) by {
            if retained(s.last(), cutoff_ms, now) && x == rs.len() - 1 {
                assert(rs[x] == s.last());
                assert(s[s.len() - 1].id@ == rs[x].id@ && s[s.len() - 1].receive_count <= rs[
                    x].receive_count);
            } else {
                assert(rs[x] == prev[x]);
                assert(descends_from(s.drop_last(), prev[x]));
                let i = choose|i: int|
                    0 <= i < s.drop_last().len() && prev[x].id@ == (#[trigger] s.drop_last()[
                        i].id@) && s.drop_last()[i].receive_count <= prev[x].receive_count;
                assert(s[i].id@ == rs[x].id@ && s[i].receive_count <= rs[x].receive_count);
            }
        }
    }
}

/// Replacing the configuration at `i` leaves every other queue's
/// configuration as it was.
pub proof fn lemma_spec_config_update_other(pre: Database, post: Database, i: int, q2: Seq<char>)
    requires
        configs_distinct(pre.configs@),
        configs_distinct(post.configs@),
        0 <= i < pre.configs@.len(),
        post.configs@.len() == pre.configs@.len(),
        forall|j: int| 0 <= j < pre.configs@.len() && j != i ==> post.configs@[j] == pre.configs@[j],
        q2 != pre.configs@[i].name@,
        q2 != post.configs@[i].name@,
        pre.queues == post.queues,
    ensures
        post.spec_config(q2) == pre.spec_config(q2),
{
    if pre.has_config(q2) {
        let j = choose|j: int| 0 <= j < pre.configs@.len() && #[trigger] pre.configs@[j].name@ == q2;
        assert(j != i);
        assert(post.configs@[j].name@ == q2);
        pre.lemma_config_at(q2, j);
        post.lemma_config_at(q2, j);
    } else {
        if post.has_config(q2) {
            let j = choose|j: int|
                0 <= j < post.configs@.len() && #[trigger] post.configs@[j].name@ == q2;
            assert(j != i);
            assert(pre.configs@[j].name@ == q2);
        }
    }
}

/// Appending a configuration leaves every other queue's configuration as it
/// was.
pub proof fn lemma_spec_config_push_other(pre: Database, post: Database, q2: Seq<char>)
    requires
        configs_distinct(pre.configs@),
        configs_distinct(post.configs@),
        post.configs@.len() == pre.configs@.len() + 1,
        forall|j: int| 0 <= j < pre.configs@.len() ==> post.configs@[j] == pre.configs@[j],
        q2 != post.configs@[post.configs@.len() - 1].name@,
    ensures
        post.spec_config(q2) == pre.spec_config(q2),
{
    if pre.has_config(q2) {
        let j = choose|j: int| 0 <= j < pre.configs@.len() && #[trigger] pre.configs@[j].name@ == q2;
        assert(post.configs@[j].name@ == q2);
        pre.lemma_config_at(q2, j);
        post.lemma_config_at(q2, j);
    } else {
        if post.has_config(q2) {
            let j = choose|j: int|
                0 <= j < post.configs@.len() && #[trigger] post.configs@[j].name@ == q2;
            assert(j < pre.configs@.len());
            assert(pre.configs@[j].name@ == q2);
        }
    }
}

} // verus!

verus! {

/// The value filed under the first occurrence of key `k`.
pub open spec fn assoc(s: Seq<(String, String)>, k: Seq<char>) -> Option<Seq<char>>
    decreases s.len(),
{
    if s.len() == 0 {
        None
    } else if s[0].0@ == k {
        Some(s[0].1@)
    } else {
        assoc(s.skip(1), k)
    }
}

/// The number a decimal attribute value denotes, or the default where the
/// attribute is absent, not all digits, or out of range.
pub open spec fn parsed_or(v: Option<Seq<char>>, default: u32) -> u32 {
    match v {
        Some(s) => if s.len() > 0 && crate::strutil::all_digits(s) && crate::strutil::dec_value(s)
            <= u32::MAX as int {
            crate::strutil::dec_value(s) as u32
        } else {
            default
        },
        None => default,
    }
}

/// The receive limit a redrive policy sets: its count where it is a
/// positive number that fits.
pub open spec fn policy_max_rc(rp: (Option<i64>, Option<Seq<char>>)) -> Option<u32> {
    match rp.0 {
        Some(v) => if 0 < v <= u32::MAX as i64 {
            Some(v as u32)
        } else {
            None
        },
        None => None,
    }
}

/// The redrive policy named in the attributes, parsed; `(None, None)` where
/// none is named.
pub open spec fn attrs_policy(attrs: Seq<(String, String)>) -> (Option<i64>, Option<Seq<char>>) {
    match assoc(attrs, "RedrivePolicy"@) {
        Some(s) => crate::outside::redrive_policy_of(s),
        None => (None, None),
    }
}

/// Looks up the first value filed under `key`.
pub fn lookup_attr(attrs: &Vec<(String, String)>, key: &str) -> (r: Option<String>)
    ensures
        opt_view(r) == assoc(attrs@, key@),
{
    let n = attrs.len();
    let mut k: usize = 0;
    proof {
        assert(attrs@.skip(0) =~= attrs@);
    }
    while k < n
        invariant
            n == attrs@.len(),
            k <= n,
            assoc(attrs@, key@) == assoc(attrs@.skip(k as int), key@),
        decreases n - k,
    {
        proof {
            assert(attrs@.skip(k as int)[0] == attrs@[k as int]);
            assert(attrs@.skip(k as int).skip(1) =~= attrs@.skip(k + 1));
        }
        if str_eq(attrs[k].0.as_str(), key) {
            return Some(attrs[k].1.clone());
        }
        k = k + 1;
    }
    proof {
        assert(attrs@.skip(n as int).len() == 0);
    }
    None
}

/// Parses a numeric attribute, falling back to the default.
fn parse_attr_or(v: Option<String>, default: u32) -> (r: u32)
    ensures
        r == parsed_or(opt_view(v), default),
{
    match v {
        Some(s) => match crate::strutil::parse_u32(s.as_str()) {
            Some(x) => x,
            None => default,
        },
        None => default,
    }
}

impl Database {
    /// Applies caller-supplied attributes to the queue's configuration:
    /// numeric windows from their decimal values (defaults where absent or
    /// malformed), the receive limit and dead-letter target from the redrive
    /// policy document. The FIFO flag and deduplication mode of an existing
    /// configuration are kept; negative or oversized policy counts are
    /// dropped rather than coerced.
    pub fn set_queue_attributes(
        &mut self,
        queue_name: &str,
        attributes: &Vec<(String, String)>,
    ) -> (r: Result<(), QueueError>)
        requires
            old(self).wf(),
        ensures
            final(self).wf(),
            r matches Ok(_),
            final(self).queues == old(self).queues,
            final(self).messages == old(self).messages,
            final(self).dlq == old(self).dlq,
            forall|q2: Seq<char>|
                q2 != queue_name@ ==> #[trigger] final(self).spec_config(q2) == old(
                    self,
                ).spec_config(q2),
            final(self).spec_config(queue_name@) matches Some(c) && {
                &&& c.name@ == queue_name@
                &&& c.is_fifo == old(self).fifo_of(queue_name@)
                &&& c.content_based_deduplication == old(self).cbd_of(queue_name@)
                &&& c.visibility_timeout_seconds == parsed_or(
                    assoc(attributes@, "VisibilityTimeout"@),
                    30,
                )
                &&& c.message_retention_period_seconds == parsed_or(
                    assoc(attributes@, "MessageRetentionPeriod"@),
                    1209600,
                )
                &&& c.delay_seconds == parsed_or(assoc(attributes@, "DelaySeconds"@), 0)
                &&& c.receive_message_wait_time_seconds == parsed_or(
                    assoc(attributes@, "ReceiveMessageWaitTimeSeconds"@),
                    0,
                )
                &&& c.max_receive_count == policy_max_rc(attrs_policy(attributes@))
                &&& opt_view(c.dead_letter_target_arn) == attrs_policy(attributes@).1
            },
    {
        let vis = parse_attr_or(lookup_attr(attributes, "VisibilityTimeout"), 30);
        let retention = parse_attr_or(lookup_attr(attributes, "MessageRetentionPeriod"), 1209600);
        let delay = parse_attr_or(lookup_attr(attributes, "DelaySeconds"), 0);
        let wait = parse_attr_or(lookup_attr(attributes, "ReceiveMessageWaitTimeSeconds"), 0);
        let (max_rc, dlq_arn): (Option<u32>, Option<String>) = match lookup_attr(
            attributes,
            "RedrivePolicy",
        ) {
            Some(policy) => {
                let (mc, arn) = crate::outside::parse_redrive_policy(policy.as_str());
                let mc32: Option<u32> = match mc {
                    Some(v) => if 0 < v && v <= u32::MAX as i64 {
                        Some(v as u32)
                    } else {
                        None
                    },
                    None => None,
                };
                (mc32, arn)
            },
            None => (None, None),
        };
        let (keep_fifo, keep_cbd) = match self.get_queue_config(queue_name) {
            Some(c) => (c.is_fifo, c.content_based_deduplication),
            None => (false, false),
        };
        let cfg = crate::config::QueueConfig {
            name: queue_name.to_owned(),
            is_fifo: keep_fifo,
            content_based_deduplication: keep_cbd,
            visibility_timeout_seconds: vis,
            message_retention_period_seconds: retention,
            max_receive_count: max_rc,
            dead_letter_target_arn: dlq_arn,
            delay_seconds: delay,
            receive_message_wait_time_seconds: wait,
        };
        self.upsert_config(cfg);
        Ok(())
    }
}

} // verus!

verus! {

/// The record belongs to this dead-letter queue and came from this source
/// queue.
pub open spec fn dlq_match(d: DlqRow, dlqn: Seq<char>, srcq: Seq<char>) -> bool {
    d.dlq_queue@ == dlqn && d.original_queue@ == srcq
}

/// How many records match the dead-letter queue and source queue.
pub open spec fn count_dlq_matches(s: Seq<DlqRow>, dlqn: Seq<char>, srcq: Seq<char>) -> nat
    decreases s.len(),
{
    if s.len() == 0 {
        0
    } else {
        (if dlq_match(s[0], dlqn, srcq) {
            1nat
        } else {
            0nat
        }) + count_dlq_matches(s.skip(1), dlqn, srcq)
    }
}

/// The first `n` matching records, in table order.
pub open spec fn redrive_taken(s: Seq<DlqRow>, dlqn: Seq<char>, srcq: Seq<char>, n: int) -> Seq<
    DlqRow,
>
    decreases s.len(),
{
    if s.len() == 0 || n <= 0 {
        Seq::empty()
    } else if dlq_match(s[0], dlqn, srcq) {
        seq![s[0]] + redrive_taken(s.skip(1), dlqn, srcq, n - 1)
    } else {
        redrive_taken(s.skip(1), dlqn, srcq, n)
    }
}

/// The table after the first `n` matching records left.
pub open spec fn redrive_rest(s: Seq<DlqRow>, dlqn: Seq<char>, srcq: Seq<char>, n: int) -> Seq<
    DlqRow,
>
    decreases s.len(),
{
    if s.len() == 0 || n <= 0 {
        s
    } else if dlq_match(s[0], dlqn, srcq) {
        redrive_rest(s.skip(1), dlqn, srcq, n - 1)
    } else {
        seq![s[0]] + redrive_rest(s.skip(1), dlqn, srcq, n)
    }
}

/// A redrive takes `min(n, matches)` records, and what stays is the rest.
pub proof fn lemma_redrive_len(s: Seq<DlqRow>, dlqn: Seq<char>, srcq: Seq<char>, n: int)
    requires
        n >= 0,
    ensures
        redrive_taken(s, dlqn, srcq, n).len() == (if n <= count_dlq_matches(s, dlqn, srcq) {
            n
        } else {
            count_dlq_matches(s, dlqn, srcq) as int
        }),
        redrive_rest(s, dlqn, srcq, n).len() == s.len() - redrive_taken(s, dlqn, srcq, n).len(),
    decreases s.len(),
{
    if s.len() > 0 && n > 0 {
        if dlq_match(s[0], dlqn, srcq) {
            lemma_redrive_len(s.skip(1), dlqn, srcq, n - 1);
        } else {
            lemma_redrive_len(s.skip(1), dlqn, srcq, n);
        }
    }
}

/// The fresh message a redrive inserts for dead-letter record `d`.
pub open spec fn redriven_row_matches(
    m: MessageRow,
    id: Seq<char>,
    srcq: Seq<char>,
    d: DlqRow,
    now: u64,
) -> bool {
    &&& m.id@ == id
    &&& m.queue_name@ == srcq
    &&& m.body@ == d.original_body@
    &&& m.created_at == now
    &&& m.visibility_deadline matches None
    &&& m.receive_count == 0
    &&& opt_view(m.attributes) == opt_view(d.original_attributes)
    &&& m.deduplication_id matches None
    &&& m.status == MsgStatus::Active
    &&& m.processed_at matches None
    &&& m.deleted_at matches None
    &&& m.delay_until matches None
    &&& m.message_group_id matches None
    &&& m.sequence_number matches None
}

impl Database {
    /// How many dead-letter records of `dlq_name` came from `source_queue`.
    pub fn count_dlq_matching(&self, dlq_name: &str, source_queue: &str) -> (r: usize)
        requires
            self.wf(),
        ensures
            r == count_dlq_matches(self.dlq@, dlq_name@, source_queue@),
    {
        let n = self.dlq.len();
        let mut acc: usize = 0;
        let mut k: usize = 0;
        proof {
            assert(self.dlq@.skip(0) =~= self.dlq@);
        }
        while k < n
            invariant
                self.wf(),
                n == self.dlq@.len(),
                k <= n,
                acc <= k,
                count_dlq_matches(self.dlq@, dlq_name@, source_queue@) == acc
                    + count_dlq_matches(self.dlq@.skip(k as int), dlq_name@, source_queue@),
            decreases n - k,
        {
            proof {
                assert(self.dlq@.skip(k as int)[0] == self.dlq@[k as int]);
                assert(self.dlq@.skip(k as int).skip(1) =~= self.dlq@.skip(k + 1));
            }
            if str_eq(self.dlq[k].dlq_queue.as_str(), dlq_name) && str_eq(
                self.dlq[k].original_queue.as_str(),
                source_queue,
            ) {
                acc = acc + 1;
            }
            k = k + 1;
        }
        proof {
            assert(self.dlq@.skip(n as int).len() == 0);
        }
        acc
    }

    /// Moves the first `ids.len()` matching dead-letter records back to the
    /// source queue: each becomes a fresh active message carrying the
    /// caller-supplied id, the original body and attributes, arrival `now`
    /// and a delivery count of zero; the records leave the dead-letter
    /// table. The caller supplies as many fresh, distinct ids as records are
    /// to move.
    pub fn redrive_with_ids(
        &mut self,
        dlq_name: &str,
        source_queue: &str,
        ids: Vec<String>,
        now: u64,
    ) -> (r: Result<u32, QueueError>)
        requires
            old(self).wf(),
            ids@.len() <= u32::MAX,
            ids@.len() <= count_dlq_matches(old(self).dlq@, dlq_name@, source_queue@),
            forall|a: int, b: int| 0 <= a < b < ids@.len() ==> ids@[a]@ != ids@[b]@,
            forall|a: int| 0 <= a < ids@.len() ==> !old(self).has_msg(#[trigger] ids@[a]@),
        ensures
            final(self).wf(),
            final(self).queues == old(self).queues,
            final(self).configs == old(self).configs,
            r matches Ok(c) && c as int == ids@.len(),
            final(self).dlq@ == redrive_rest(
                old(self).dlq@,
                dlq_name@,
                source_queue@,
                ids@.len() as int,
            ),
            final(self).dlq@.len() + ids@.len() == old(self).dlq@.len(),
            final(self).messages@.len() == old(self).messages@.len() + ids@.len(),
            final(self).messages@.subrange(0, old(self).messages@.len() as int) == old(
                self,
            ).messages@,
            forall|x: int|
                0 <= x < ids@.len() ==> redriven_row_matches(
                    #[trigger] final(self).messages@[old(self).messages@.len() + x],
                    ids@[x]@,
                    source_queue@,
                    redrive_taken(old(self).dlq@, dlq_name@, source_queue@, ids@.len() as int)[x],
                    now,
                ),
    {
        let ghost dlqn = dlq_name@;
        let ghost srcq = source_queue@;
        let ghost orig = self.dlq@;
        let n = ids.len();
        let mut taken: Vec<DlqRow> = Vec::new();
        let mut k: usize = 0;
        let ghost mut j: int = 0;
        proof {
            assert(orig.skip(0) =~= orig);
            assert(self.dlq@.subrange(0, 0) =~= Seq::<DlqRow>::empty());
            lemma_redrive_len(orig, dlqn, srcq, n as int);
        }
        while k < self.dlq.len() && taken.len() < n
            invariant
                old(self).wf(),
                n == ids@.len(),
                n <= count_dlq_matches(orig, dlqn, srcq),
                orig == old(self).dlq@,
                dlqn == dlq_name@,
                srcq == source_queue@,
                self.queues == old(self).queues,
                self.configs == old(self).configs,
                self.messages == old(self).messages,
                dlq_wf(self.dlq@),
                0 <= j <= orig.len(),
                k <= self.dlq@.len(),
                taken@.len() <= n,
                self.dlq@.skip(k as int) == orig.skip(j),
                redrive_taken(orig, dlqn, srcq, n as int) == taken@ + redrive_taken(
                    orig.skip(j),
                    dlqn,
                    srcq,
                    n - taken@.len(),
                ),
                redrive_rest(orig, dlqn, srcq, n as int) == self.dlq@.subrange(0, k as int)
                    + redrive_rest(orig.skip(j), dlqn, srcq, n - taken@.len()),
            decreases orig.len() - j,
        {
            proof {
                assert(self.dlq@.skip(k as int)[0] == self.dlq@[k as int]);
                assert(orig.skip(j)[0] == orig[j]);
                assert(orig.skip(j).skip(1) =~= orig.skip(j + 1));
            }
            let is_match = str_eq(self.dlq[k].dlq_queue.as_str(), dlq_name) && str_eq(
                self.dlq[k].original_queue.as_str(),
                source_queue,
            );
            if is_match {
                taken.push(self.dlq[k].duplicate());
                let ghost pre = self.dlq@;
                self.dlq.remove(k);
                proof {
                    lemma_dlq_wf_remove(pre, k as int);
                    assert(self.dlq@.skip(k as int) =~= orig.skip(j + 1));
                    assert(self.dlq@.subrange(0, k as int) =~= pre.subrange(0, k as int));
                    j = j + 1;
                }
            } else {
                proof {
                    assert(orig.skip(j).len() > 0);
                    assert(n - taken@.len() > 0);
                    assert(orig.skip(j)[0] == self.dlq@[k as int]);
                    assert(!dlq_match(orig.skip(j)[0], dlqn, srcq));
                    assert(redrive_taken(orig.skip(j), dlqn, srcq, n - taken@.len())
                        == redrive_taken(orig.skip(j).skip(1), dlqn, srcq, n - taken@.len()));
                    assert(redrive_taken(orig.skip(j), dlqn, srcq, n - taken@.len())
                        == redrive_taken(orig.skip(j + 1), dlqn, srcq, n - taken@.len()));
                    assert(redrive_rest(orig.skip(j), dlqn, srcq, n - taken@.len()) =~= seq![
                        orig[j]] + redrive_rest(orig.skip(j + 1), dlqn, srcq, n - taken@.len()));
                    assert(self.dlq@.subrange(0, k + 1) =~= self.dlq@.subrange(0, k as int).push(
                        self.dlq@[k as int],
                    ));
                    assert(self.dlq@.skip(k + 1) =~= orig.skip(j + 1));
                    assert(redrive_rest(orig, dlqn, srcq, n as int) =~= self.dlq@.subrange(
                        0,
                        k + 1,
                    ) + redrive_rest(orig.skip(j + 1), dlqn, srcq, n - taken@.len()));
                    j = j + 1;
                }
                k = k + 1;
            }
        }
        proof {
            if taken@.len() < n {
                assert(k == self.dlq@.len());
                assert(self.dlq@.skip(k as int).len() == 0);
                assert(orig.skip(j).len() == 0);
                lemma_redrive_len(orig.skip(j), dlqn, srcq, n - taken@.len());
            }
            assert(taken@.len() == n) by {
                lemma_redrive_len(orig, dlqn, srcq, n as int);
                if taken@.len() < n {
                    assert(redrive_taken(orig.skip(j), dlqn, srcq, n - taken@.len()).len() == 0);
                    assert(redrive_taken(orig, dlqn, srcq, n as int).len() == taken@.len());
                }
            }
            assert(redrive_taken(orig, dlqn, srcq, n as int) =~= taken@);
            assert(redrive_rest(orig.skip(j), dlqn, srcq, 0) == orig.skip(j));
            assert(redrive_rest(orig, dlqn, srcq, n as int) =~= self.dlq@.subrange(0, k as int)
                + orig.skip(j));
            assert(self.dlq@ =~= self.dlq@.subrange(0, k as int) + self.dlq@.skip(k as int));
            assert(self.dlq@ =~= redrive_rest(orig, dlqn, srcq, n as int));
        }
        let ghost base = self.messages@;
        let mut x: usize = 0;
        while x < n
            invariant
                n == ids@.len(),
                n <= u32::MAX,
                x <= n,
                taken@.len() == n,
                taken@ == redrive_taken(old(self).dlq@, dlq_name@, source_queue@, n as int),
                base == old(self).messages@,
                srcq == source_queue@,
                self.queues == old(self).queues,
                self.configs == old(self).configs,
                self.dlq@ == redrive_rest(old(self).dlq@, dlq_name@, source_queue@, n as int),
                dlq_wf(self.dlq@),
                msgs_wf(self.messages@),
                self.messages@.len() == base.len() + x,
                self.messages@.subrange(0, base.len() as int) == base,
                forall|a: int| 0 <= a < ids@.len() ==> !old(self).has_msg(#[trigger] ids@[a]@),
                forall|a: int, b: int| 0 <= a < b < ids@.len() ==> ids@[a]@ != ids@[b]@,
                forall|y: int|
                    0 <= y < x ==> redriven_row_matches(
                        #[trigger] self.messages@[base.len() + y],
                        ids@[y]@,
                        srcq,
                        taken@[y],
                        now,
                    ),
                forall|y: int|
                    0 <= y < x ==> self.messages@[base.len() + y].id@ == ids@[y]@,
            decreases n - x,
        {
            let d = &taken[x];
            let row = MessageRow {
                id: ids[x].clone(),
                queue_name: source_queue.to_owned(),
                body: d.original_body.clone(),
                created_at: now,
                visibility_deadline: None,
                receive_count: 0,
                attributes: crate::strutil::clone_opt_string(&d.original_attributes),
                deduplication_id: None,
                status: MsgStatus::Active,
                processed_at: None,
                deleted_at: None,
                delay_until: None,
                message_group_id: None,
                sequence_number: None,
            };
            let ghost pre = self.messages@;
            self.messages.push(row);
            proof {
                let ns = self.messages@;
                let last = ns.len() - 1;
                assert(ns.drop_last() =~= pre);
                assert(ns.subrange(0, base.len() as int) =~= pre.subrange(0, base.len() as int));
                assert forall|a: int, b: int| 0 <= a < b < ns.len() implies ns[a].id@ != ns[b].id@
                    && ((ns[a].queue_name@ == ns[b].queue_name@ && (ns[a].sequence_number
                    matches Some(_))) ==> ns[a].sequence_number != ns[b].sequence_number) by {
                    if b < last {
                        assert(ns[a] == pre[a] && ns[b] == pre[b]);
                    } else {
                        assert(ns[a] == pre[a]);
                        assert(ns[b].id@ == ids@[x as int]@);
                        if a < base.len() {
                            assert(pre[a] == base[a]);
                            assert(!old(self).has_msg(ids@[x as int]@));
                        } else {
                            assert(pre[a].id@ == ids@[a - base.len()]@);
                            assert(ids@[a - base.len()]@ != ids@[x as int]@);
                        }
                    }
                }
                assert forall|a: int| 0 <= a < ns.len() implies (#[trigger] ns[a].status
                    == MsgStatus::Processing ==> ns[a].visibility_deadline matches Some(_)) by {
                    if a < last {
                        assert(ns[a] == pre[a]);
                    }
                }
            }
            x = x + 1;
        }
        proof {
            assert(msgs_wf(self.messages@) && dlq_wf(self.dlq@));
            lemma_redrive_len(old(self).dlq@, dlq_name@, source_queue@, n as int);
        }
        Ok(n as u32)
    }
}

} // verus!

verus! {

impl Database {
    /// Redrives up to `max_messages` (ten when unspecified) dead-letter
    /// records of `dlq_name` that came from `source_queue`: each becomes a
    /// fresh active message in the source queue with a newly drawn id, the
    /// original body and attributes and a delivery count of zero, and its
    /// record leaves the dead-letter table. Reports how many moved. Fails,
    /// changing nothing, only if a drawn id clashes.
    pub fn redrive_dlq_messages(
        &mut self,
        dlq_name: &str,
        source_queue: &str,
        max_messages: Option<u32>,
        now: u64,
    ) -> (r: Result<u32, QueueError>)
        requires
            old(self).wf(),
        ensures
            final(self).wf(),
            final(self).queues == old(self).queues,
            final(self).configs == old(self).configs,
            match r {
                Ok(c) => {
                    let limit = match max_messages {
                        Some(m) => m,
                        None => 10,
                    };
                    let matched = count_dlq_matches(old(self).dlq@, dlq_name@, source_queue@);
                    &&& c as int == (if (limit as int) <= matched {
                        limit as int
                    } else {
                        matched as int
                    })
                    &&& final(self).dlq@ == redrive_rest(
                        old(self).dlq@,
                        dlq_name@,
                        source_queue@,
                        c as int,
                    )
                    &&& final(self).dlq@.len() + c == old(self).dlq@.len()
                    &&& final(self).messages@.len() == old(self).messages@.len() + c
                    &&& final(self).messages@.subrange(0, old(self).messages@.len() as int) == old(
                        self,
                    ).messages@
                    &&& forall|x: int|
                        0 <= x < c ==> redriven_row_matches_anon(
                            #[trigger] final(self).messages@[old(self).messages@.len() + x],
                            source_queue@,
                            redrive_taken(
                                old(self).dlq@,
                                dlq_name@,
                                source_queue@,
                                c as int,
                            )[x],
                            now,
                        )
                },
                Err(_) => *final(self) == *old(self),
            },
            (match max_messages {
                Some(m) => m,
                None => 10,
            }) == 0 || count_dlq_matches(old(self).dlq@, dlq_name@, source_queue@) == 0
                ==> r matches Ok(_),
    {
        let limit: u32 = match max_messages {
            Some(m) => m,
            None => 10,
        };
        let matched = self.count_dlq_matching(dlq_name, source_queue);
        let n: usize = if (limit as usize) <= matched {
            limit as usize
        } else {
            matched
        };
        let mut ids: Vec<String> = Vec::new();
        let mut x: usize = 0;
        while x < n
            invariant
                *self == *old(self),
                self.wf(),
                x <= n,
                n <= u32::MAX,
                matched == count_dlq_matches(old(self).dlq@, dlq_name@, source_queue@),
                limit == (match max_messages {
                    Some(m) => m,
                    None => 10u32,
                }),
                n == (if (limit as usize) <= matched {
                    limit as usize
                } else {
                    matched
                }),
                ids@.len() == x,
                forall|a: int, b: int| 0 <= a < b < ids@.len() ==> ids@[a]@ != ids@[b]@,
                forall|a: int| 0 <= a < ids@.len() ==> !self.has_msg(#[trigger] ids@[a]@),
            decreases n - x,
        {
            let id = crate::outside::fresh_message_id();
            if self.find_message(id.as_str()).is_some() {
                return Err(QueueError::StorageFatal("fresh id already in use".to_owned()));
            }
            let mut y: usize = 0;
            while y < ids.len()
                invariant
                    *self == *old(self),
                    self.wf(),
                    x < n,
                    matched == count_dlq_matches(old(self).dlq@, dlq_name@, source_queue@),
                    limit == (match max_messages {
                        Some(m) => m,
                        None => 10u32,
                    }),
                    n == (if (limit as usize) <= matched {
                        limit as usize
                    } else {
                        matched
                    }),
                    y <= ids@.len(),
                    forall|a: int| 0 <= a < y ==> ids@[a]@ != id@,
                decreases ids@.len() - y,
            {
                if str_eq(ids[y].as_str(), id.as_str()) {
                    return Err(QueueError::StorageFatal("fresh id already in use".to_owned()));
                }
                y = y + 1;
            }
            ids.push(id);
            x = x + 1;
        }
        let c = self.redrive_with_ids(dlq_name, source_queue, ids, now);
        proof {
            lemma_redrive_len(old(self).dlq@, dlq_name@, source_queue@, n as int);
        }
        c
    }
}

/// The fresh message a redrive inserts for dead-letter record `d`, with the
/// drawn id left unstated.
pub open spec fn redriven_row_matches_anon(m: MessageRow, srcq: Seq<char>, d: DlqRow, now: u64) -> bool {
    redriven_row_matches(m, m.id@, srcq, d, now)
}

} // verus!

verus! {

/// One batch step: a well-formed state reached by one send.
pub open spec fn batch_send_step(
    pre: Database,
    m: Database,
    e: SendMessageParams,
    now: u64,
    r: Result<(), QueueError>,
) -> bool {
    m.wf() && send_outcome(
        pre,
        m,
        e.queue_name@,
        e.message_id@,
        e.body@,
        opt_view(e.attributes),
        opt_view(e.deduplication_id),
        e.delay_until,
        opt_view(e.message_group_id),
        now,
        r,
    )
}

/// The batch relation: `post` is reached from `pre` by sending the entries
/// in order, with `rs` the per-entry results.
pub open spec fn batch_send_rel(
    pre: Database,
    post: Database,
    entries: Seq<SendMessageParams>,
    now: u64,
    rs: Seq<Result<(), QueueError>>,
) -> bool
    decreases entries.len(),
{
    if entries.len() == 0 {
        post == pre && rs.len() == 0
    } else {
        rs.len() == entries.len() && exists|m: Database|
            #[trigger] batch_send_step(pre, m, entries[0], now, rs[0]) && batch_send_rel(
                m,
                post,
                entries.skip(1),
                now,
                rs.skip(1),
            )
    }
}

pub proof fn lemma_batch_send_snoc(
    pre: Database,
    mid: Database,
    post: Database,
    entries: Seq<SendMessageParams>,
    now: u64,
    rs: Seq<Result<(), QueueError>>,
    e: SendMessageParams,
    r: Result<(), QueueError>,
)
    requires
        batch_send_rel(pre, mid, entries, now, rs),
        batch_send_step(mid, post, e, now, r),
    ensures
        batch_send_rel(pre, post, entries.push(e), now, rs.push(r)),
    decreases entries.len(),
{
    let es2 = entries.push(e);
    let rs2 = rs.push(r);
    if entries.len() == 0 {
        assert(mid == pre);
        assert(es2[0] == e && rs2[0] == r);
        assert(es2.skip(1) =~= Seq::<SendMessageParams>::empty());
        assert(rs2.skip(1) =~= Seq::<Result<(), QueueError>>::empty());
        assert(batch_send_step(pre, post, es2[0], now, rs2[0]));
        assert(batch_send_rel(post, post, es2.skip(1), now, rs2.skip(1)));
    } else {
        let m = choose|m: Database|
            #[trigger] batch_send_step(pre, m, entries[0], now, rs[0]) && batch_send_rel(
                m,
                mid,
                entries.skip(1),
                now,
                rs.skip(1),
            );
        lemma_batch_send_snoc(m, mid, post, entries.skip(1), now, rs.skip(1), e, r);
        assert(es2.skip(1) =~= entries.skip(1).push(e));
        assert(rs2.skip(1) =~= rs.skip(1).push(r));
        assert(es2[0] == entries[0] && rs2[0] == rs[0]);
        assert(batch_send_step(pre, m, es2[0], now, rs2[0]));
    }
}

/// One batch step: a well-formed state reached by one delete.
pub open spec fn batch_delete_step(
    pre: Database,
    m: Database,
    id: String,
    now: u64,
    r: Result<bool, QueueError>,
) -> bool {
    &&& m.wf()
    &&& m.queues == pre.queues
    &&& m.configs == pre.configs
    &&& m.dlq == pre.dlq
    &&& match r {
        Ok(true) => exists|i: int|
            {
                &&& 0 <= i < pre.messages@.len()
                &&& (#[trigger] pre.messages@[i].id@) == id@
                &&& pre.messages@[i].status != MsgStatus::Deleted
                &&& m.messages@ == pre.messages@.update(i, deleted_update(pre.messages@[i], now))
            },
        Ok(false) => m == pre && (forall|i: int|
            0 <= i < pre.messages@.len() && (#[trigger] pre.messages@[i].id@) == id@
                ==> pre.messages@[i].status == MsgStatus::Deleted),
        Err(_) => false,
    }
}

/// The batch relation for deletes.
pub open spec fn batch_delete_rel(
    pre: Database,
    post: Database,
    ids: Seq<String>,
    now: u64,
    rs: Seq<Result<bool, QueueError>>,
) -> bool
    decreases ids.len(),
{
    if ids.len() == 0 {
        post == pre && rs.len() == 0
    } else {
        rs.len() == ids.len() && exists|m: Database|
            #[trigger] batch_delete_step(pre, m, ids[0], now, rs[0]) && batch_delete_rel(
                m,
                post,
                ids.skip(1),
                now,
                rs.skip(1),
            )
    }
}

pub proof fn lemma_batch_delete_snoc(
    pre: Database,
    mid: Database,
    post: Database,
    ids: Seq<String>,
    now: u64,
    rs: Seq<Result<bool, QueueError>>,
    id: String,
    r: Result<bool, QueueError>,
)
    requires
        batch_delete_rel(pre, mid, ids, now, rs),
        batch_delete_step(mid, post, id, now, r),
    ensures
        batch_delete_rel(pre, post, ids.push(id), now, rs.push(r)),
    decreases ids.len(),
{
    let is2 = ids.push(id);
    let rs2 = rs.push(r);
    if ids.len() == 0 {
        assert(mid == pre);
        assert(is2[0] == id && rs2[0] == r);
        assert(is2.skip(1) =~= Seq::<String>::empty());
        assert(rs2.skip(1) =~= Seq::<Result<bool, QueueError>>::empty());
        assert(batch_delete_step(pre, post, is2[0], now, rs2[0]));
        assert(batch_delete_rel(post, post, is2.skip(1), now, rs2.skip(1)));
    } else {
        let m = choose|m: Database|
            #[trigger] batch_delete_step(pre, m, ids[0], now, rs[0]) && batch_delete_rel(
                m,
                mid,
                ids.skip(1),
                now,
                rs.skip(1),
            );
        lemma_batch_delete_snoc(m, mid, post, ids.skip(1), now, rs.skip(1), id, r);
        assert(is2.skip(1) =~= ids.skip(1).push(id));
        assert(rs2.skip(1) =~= rs.skip(1).push(r));
        assert(is2[0] == ids[0] && rs2[0] == rs[0]);
        assert(batch_delete_step(pre, m, is2[0], now, rs2[0]));
    }
}

impl Database {
    /// Sends the entries in order, in one pass; every entry gets its own
    /// result, and a failing entry does not roll back its siblings.
    pub fn send_messages_batch(
        &mut self,
        entries: Vec<SendMessageParams>,
        now: u64,
    ) -> (r: Vec<Result<(), QueueError>>)
        requires
            old(self).wf(),
        ensures
            final(self).wf(),
            r@.len() == entries@.len(),
            batch_send_rel(*old(self), *final(self), entries@, now, r@),
    {
        let ghost all = entries@;
        let mut rest = entries;
        let mut results: Vec<Result<(), QueueError>> = Vec::new();
        let ghost mut done: Seq<SendMessageParams> = Seq::empty();
        proof {
            assert(all =~= done + rest@);
            assert(batch_send_rel(*old(self), *self, done, now, results@));
        }
        while rest.len() > 0
            invariant
                self.wf(),
                all == done + rest@,
                results@.len() == done.len(),
                batch_send_rel(*old(self), *self, done, now, results@),
            decreases rest@.len(),
        {
            let ghost pre = *self;
            let e = rest.remove(0);
            let ghost e_spec = e;
            let r1 = self.send_message_with_delay_and_group(e, now);
            let ghost rs_pre = results@;
            results.push(r1);
            proof {
                lemma_batch_send_snoc(*old(self), pre, *self, done, now, rs_pre, e_spec, r1);
                assert(rs_pre.push(r1) =~= results@);
                done = done.push(e_spec);
                assert(all =~= done + rest@);
            }
        }
        proof {
            assert(done =~= all);
        }
        results
    }

    /// Deletes the listed messages in order; every receipt gets its own
    /// result.
    pub fn delete_messages_batch(&mut self, message_ids: Vec<String>, now: u64) -> (r: Vec<
        Result<bool, QueueError>,
    >)
        requires
            old(self).wf(),
        ensures
            final(self).wf(),
            r@.len() == message_ids@.len(),
            batch_delete_rel(*old(self), *final(self), message_ids@, now, r@),
    {
        let ghost all = message_ids@;
        let mut rest = message_ids;
        let mut results: Vec<Result<bool, QueueError>> = Vec::new();
        let ghost mut done: Seq<String> = Seq::empty();
        proof {
            assert(all =~= done + rest@);
            assert(batch_delete_rel(*old(self), *self, done, now, results@));
        }
        while rest.len() > 0
            invariant
                self.wf(),
                all == done + rest@,
                results@.len() == done.len(),
                batch_delete_rel(*old(self), *self, done, now, results@),
            decreases rest@.len(),
        {
            let ghost pre = *self;
            let id = rest.remove(0);
            let ghost id_spec = id;
            let r1 = self.delete_message(id.as_str(), now);
            let ghost rs_pre = results@;
            results.push(r1);
            proof {
                assert(batch_delete_step(pre, *self, id_spec, now, r1));
                lemma_batch_delete_snoc(*old(self), pre, *self, done, now, rs_pre, id_spec, r1);
                assert(rs_pre.push(r1) =~= results@);
                done = done.push(id_spec);
                assert(all =~= done + rest@);
            }
        }
        proof {
            assert(done =~= all);
        }
        results
    }
}

} // verus!

verus! {

/// The messages a trace of selection steps hands out, in order.
pub open spec fn delivered_of(trace: Seq<ReceiveOutcome>) -> Seq<DeliveredMsg>
    decreases trace.len(),
{
    if trace.len() == 0 {
        Seq::empty()
    } else {
        (match trace[0] {
            ReceiveOutcome::Delivered(id, body, created, attrs) => seq![(id, body, created, attrs)],
            _ => Seq::<DeliveredMsg>::empty(),
        }) + delivered_of(trace.skip(1))
    }
}

/// The store evolves from `pre` to `post` by this trace of selection steps
/// on queue `q` at `now`: each step obeys `receive_step_outcome`, and each
/// marking is followed at once by the move of the marked message to the
/// dead-letter table, with the given failure reason.
pub open spec fn receive_trace(
    pre: Database,
    post: Database,
    q: Seq<char>,
    now: u64,
    reason: Seq<char>,
    trace: Seq<ReceiveOutcome>,
) -> bool
    decreases trace.len(),
{
    if trace.len() == 0 {
        post == pre
    } else {
        exists|mid: Database|
            {
                &&& mid.wf()
                &&& #[trigger] receive_step_outcome(pre, mid, q, now, trace[0])
                &&& match trace[0] {
                    ReceiveOutcome::Marked(id) => exists|mid2: Database, mr: Result<
                        bool,
                        QueueError,
                    >|
                        {
                            &&& mid2.wf()
                            &&& #[trigger] move_to_dlq_outcome(mid, mid2, id@, reason, now, mr)
                            &&& receive_trace(mid2, post, q, now, reason, trace.skip(1))
                        },
                    _ => receive_trace(mid, post, q, now, reason, trace.skip(1)),
                }
            }
    }
}

/// A finished receive call's trace: deliveries stay within the cap, only
/// the final step may come up empty, and a call that delivered fewer than
/// the cap stopped exactly because selection came up empty.
pub open spec fn receive_trace_complete(trace: Seq<ReceiveOutcome>, cap: int) -> bool {
    &&& delivered_of(trace).len() <= cap
    &&& (forall|i: int|
        0 <= i < trace.len() - 1 ==> !((#[trigger] trace[i]) matches ReceiveOutcome::Empty))
    &&& delivered_of(trace).len() < cap ==> trace.len() > 0 && (trace.last()
        matches ReceiveOutcome::Empty)
}

pub proof fn lemma_delivered_of_snoc(trace: Seq<ReceiveOutcome>, s: ReceiveOutcome)
    ensures
        delivered_of(trace.push(s)) == delivered_of(trace) + (match s {
            ReceiveOutcome::Delivered(id, body, created, attrs) => seq![(id, body, created, attrs)],
            _ => Seq::<DeliveredMsg>::empty(),
        }),
    decreases trace.len(),
{
    let t2 = trace.push(s);
    let tail = (match s {
        ReceiveOutcome::Delivered(id, body, created, attrs) => seq![(id, body, created, attrs)],
        _ => Seq::<DeliveredMsg>::empty(),
    });
    if trace.len() == 0 {
        assert(t2.skip(1) =~= Seq::<ReceiveOutcome>::empty());
        assert(t2[0] == s);
        assert(delivered_of(t2.skip(1)) =~= Seq::<DeliveredMsg>::empty());
        assert(delivered_of(t2) =~= tail + Seq::<DeliveredMsg>::empty());
        assert(delivered_of(trace) =~= Seq::<DeliveredMsg>::empty());
        assert(delivered_of(t2) =~= delivered_of(trace) + tail);
    } else {
        assert(t2[0] == trace[0]);
        assert(t2.skip(1) =~= trace.skip(1).push(s));
        lemma_delivered_of_snoc(trace.skip(1), s);
        assert(delivered_of(t2) =~= delivered_of(trace) + tail);
    }
}

/// Extending a trace by one non-marking step.
pub proof fn lemma_receive_trace_snoc_plain(
    pre: Database,
    mid: Database,
    post: Database,
    q: Seq<char>,
    now: u64,
    reason: Seq<char>,
    trace: Seq<ReceiveOutcome>,
    s: ReceiveOutcome,
)
    requires
        receive_trace(pre, mid, q, now, reason, trace),
        mid.wf(),
        post.wf(),
        receive_step_outcome(mid, post, q, now, s),
        !(s matches ReceiveOutcome::Marked(_)),
    ensures
        receive_trace(pre, post, q, now, reason, trace.push(s)),
    decreases trace.len(),
{
    let t2 = trace.push(s);
    if trace.len() == 0 {
        assert(mid == pre);
        assert(t2[0] == s);
        assert(t2.skip(1) =~= Seq::<ReceiveOutcome>::empty());
        assert(receive_trace(post, post, q, now, reason, t2.skip(1)));
        assert(receive_step_outcome(pre, post, q, now, t2[0]));
    } else {
        let m0 = choose|m0: Database|
            {
                &&& m0.wf()
                &&& #[trigger] receive_step_outcome(pre, m0, q, now, trace[0])
                &&& match trace[0] {
                    ReceiveOutcome::Marked(id) => exists|mid2: Database, mr: Result<
                        bool,
                        QueueError,
                    >|
                        {
                            &&& mid2.wf()
                            &&& #[trigger] move_to_dlq_outcome(m0, mid2, id@, reason, now, mr)
                            &&& receive_trace(mid2, mid, q, now, reason, trace.skip(1))
                        },
                    _ => receive_trace(m0, mid, q, now, reason, trace.skip(1)),
                }
            };
        assert(t2[0] == trace[0]);
        assert(t2.skip(1) =~= trace.skip(1).push(s));
        match trace[0] {
            ReceiveOutcome::Marked(id) => {
                let (m2, mr) = choose|m2: Database, mr: Result<bool, QueueError>|
                    {
                        &&& m2.wf()
                        &&& #[trigger] move_to_dlq_outcome(m0, m2, id@, reason, now, mr)
                        &&& receive_trace(m2, mid, q, now, reason, trace.skip(1))
                    };
                lemma_receive_trace_snoc_plain(m2, mid, post, q, now, reason, trace.skip(1), s);
            },
            _ => {
                lemma_receive_trace_snoc_plain(m0, mid, post, q, now, reason, trace.skip(1), s);
            },
        }
    }
}

/// Extending a trace by one marking step and its dead-letter move.
pub proof fn lemma_receive_trace_snoc_marked(
    pre: Database,
    mid: Database,
    stepped: Database,
    post: Database,
    q: Seq<char>,
    now: u64,
    reason: Seq<char>,
    trace: Seq<ReceiveOutcome>,
    id: String,
    mr: Result<bool, QueueError>,
)
    requires
        receive_trace(pre, mid, q, now, reason, trace),
        mid.wf(),
        stepped.wf(),
        post.wf(),
        receive_step_outcome(mid, stepped, q, now, ReceiveOutcome::Marked(id)),
        move_to_dlq_outcome(stepped, post, id@, reason, now, mr),
    ensures
        receive_trace(pre, post, q, now, reason, trace.push(ReceiveOutcome::Marked(id))),
    decreases trace.len(),
{
    let s = ReceiveOutcome::Marked(id);
    let t2 = trace.push(s);
    if trace.len() == 0 {
        assert(mid == pre);
        assert(t2[0] == s);
        assert(t2.skip(1) =~= Seq::<ReceiveOutcome>::empty());
        assert(receive_trace(post, post, q, now, reason, t2.skip(1)));
        assert(receive_step_outcome(pre, stepped, q, now, t2[0]));
    } else {
        let m0 = choose|m0: Database|
            {
                &&& m0.wf()
                &&& #[trigger] receive_step_outcome(pre, m0, q, now, trace[0])
                &&& match trace[0] {
                    ReceiveOutcome::Marked(mid_id) => exists|mid2: Database, mmr: Result<
                        bool,
                        QueueError,
                    >|
                        {
                            &&& mid2.wf()
                            &&& #[trigger] move_to_dlq_outcome(m0, mid2, mid_id@, reason, now, mmr)
                            &&& receive_trace(mid2, mid, q, now, reason, trace.skip(1))
                        },
                    _ => receive_trace(m0, mid, q, now, reason, trace.skip(1)),
                }
            };
        assert(t2[0] == trace[0]);
        assert(t2.skip(1) =~= trace.skip(1).push(s));
        match trace[0] {
            ReceiveOutcome::Marked(mid_id) => {
                let (m2, mmr) = choose|m2: Database, mmr: Result<bool, QueueError>|
                    {
                        &&& m2.wf()
                        &&& #[trigger] move_to_dlq_outcome(m0, m2, mid_id@, reason, now, mmr)
                        &&& receive_trace(m2, mid, q, now, reason, trace.skip(1))
                    };
                lemma_receive_trace_snoc_marked(
                    m2,
                    mid,
                    stepped,
                    post,
                    q,
                    now,
                    reason,
                    trace.skip(1),
                    id,
                    mr,
                );
            },
            _ => {
                lemma_receive_trace_snoc_marked(
                    m0,
                    mid,
                    stepped,
                    post,
                    q,
                    now,
                    reason,
                    trace.skip(1),
                    id,
                    mr,
                );
            },
        }
    }
}

} // verus!
