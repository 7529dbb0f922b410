//! The engine's invariants and cross-operation laws, each stated and proved
//! over the store's contracts: id uniqueness, delivery-count monotonicity,
//! FIFO order, the visibility mutex, deduplication idempotence, and the
//! conservation laws of dead-letter promotion, redrive and retention.

use vstd::prelude::*;
use crate::store::Database;
use crate::store::DEDUP_WINDOW_MS;
use crate::store::MessageRow;
use crate::store::MsgStatus;
use crate::store::count_dlq_matches;
use crate::store::dedup_hit;
use crate::store::delivery_before;
use crate::store::descends_from;
use crate::store::effective_dedup;
use crate::store::eligible;
use crate::store::head_at;
use crate::store::lease_expired;
use crate::store::lemma_max_seq_ge;
use crate::store::lemma_redrive_len;
use crate::store::max_seq_no;
use crate::store::msgs_distinct;
use crate::store::msgs_leased;
use crate::store::opt_view;
use crate::store::order_key;
use crate::store::promoted;
use crate::store::redrive_rest;
use crate::store::rows_evolved;
use crate::store::send_outcome;
use crate::store::unleashed;

verus! {

/// In every well-formed store, message ids are unique: two distinct rows
/// never carry the same id.
pub proof fn lemma_message_ids_unique(db: Database, i: int, j: int)
    requires
        db.wf(),
        0 <= i < db.messages@.len(),
        0 <= j < db.messages@.len(),
        i != j,
    ensures
        db.messages@[i].id@ != db.messages@[j].id@,
{
}

/// Across any evolution of the message table in which every row descends
/// from a row of the old table — receives, deletes, restores, cleanup — the
/// delivery count of a message id never decreases.
pub proof fn lemma_receive_count_monotone(
    pre: Seq<MessageRow>,
    post: Seq<MessageRow>,
    i: int,
    j: int,
)
    requires
        msgs_distinct(pre),
        rows_evolved(pre, post),
        0 <= i < pre.len(),
        0 <= j < post.len(),
        pre[i].id@ == post[j].id@,
    ensures
        pre[i].receive_count <= post[j].receive_count,
{
    assert(descends_from(pre, post[j]));
    let x = choose|x: int|
        0 <= x < pre.len() && post[j].id@ == (#[trigger] pre[x].id@) && pre[x].receive_count
            <= post[j].receive_count;
    if x != i {
        assert(pre[i].id@ != pre[x].id@);
    }
}

/// FIFO order within a group: while an earlier message of the same group is
/// still eligible, a receive cannot select a later one as the head.
pub proof fn lemma_fifo_order(db: Database, q: Seq<char>, now: u64, i: int, j: int)
    requires
        db.wf(),
        db.fifo_of(q),
        0 <= i < db.messages@.len(),
        0 <= j < db.messages@.len(),
        i != j,
        db.messages@[i].queue_name@ == q,
        db.messages@[j].queue_name@ == q,
        db.messages@[i].message_group_id == db.messages@[j].message_group_id,
        (db.messages@[i].sequence_number matches Some(si) && db.messages@[j].sequence_number
            matches Some(sj) && si < sj),
        eligible(db.messages@[i], q, now),
    ensures
        !head_at(db.messages@, q, now, true, j),
{
    if head_at(db.messages@, q, now, true, j) {
        assert(delivery_before(db.messages@[j], db.messages@[i], true));
        assert(order_key(db.messages@[j], true) > order_key(db.messages@[i], true));
    }
}

/// Each send to a FIFO queue assigns a sequence number strictly above every
/// number already assigned in that queue, so sequence order is insertion
/// order.
pub proof fn lemma_send_assigns_increasing_sequence(
    pre: Database,
    post: Database,
    q: Seq<char>,
    id: Seq<char>,
    body: Seq<char>,
    attrs: Option<Seq<char>>,
    dedup: Option<Seq<char>>,
    delay: Option<u64>,
    group: Option<Seq<char>>,
    now: u64,
    i: int,
)
    requires
        pre.wf(),
        pre.fifo_of(q),
        send_outcome(pre, post, q, id, body, attrs, dedup, delay, group, now, Ok(())),
        post.messages@.len() == pre.messages@.len() + 1,
        0 <= i < pre.messages@.len(),
        pre.messages@[i].queue_name@ == q,
    ensures
        post.messages@.last().sequence_number matches Some(sn) && (match pre
            .messages@[i].sequence_number {
            Some(v) => v < sn,
            None => true,
        }),
{
    lemma_max_seq_ge(pre.messages@, q, i);
    crate::store::lemma_max_seq_nonneg(pre.messages@, q);
    assert(max_seq_no(pre.messages@, q) < u64::MAX as int);
}

/// The visibility mutex after a sweep: a keep-forever cleanup leaves no
/// processing row whose deadline has passed — every such lease was flipped
/// back to `active`.
pub proof fn lemma_cleanup_visibility_mutex(
    pre: Seq<MessageRow>,
    post: Seq<MessageRow>,
    now: u64,
    i: int,
)
    requires
        msgs_leased(pre),
        post.len() == pre.len(),
        forall|k: int|
            0 <= k < pre.len() ==> post[k] == (if lease_expired(#[trigger] pre[k], now) {
                unleashed(pre[k])
            } else {
                pre[k]
            }),
        0 <= i < post.len(),
        post[i].status == MsgStatus::Processing,
    ensures
        post[i].visibility_deadline matches Some(d) && d >= now,
{
    assert(!lease_expired(pre[i], now));
    assert(post[i] == pre[i]);
}

/// Deduplication idempotence: after a send inserted a message with
/// deduplication id `d`, a second send to the same queue with the same id
/// within the window silently succeeds and inserts nothing.
pub proof fn lemma_dedup_idempotent(
    s1: Database,
    s2: Database,
    s3: Database,
    q: Seq<char>,
    id1: Seq<char>,
    body1: Seq<char>,
    id2: Seq<char>,
    body2: Seq<char>,
    d: Seq<char>,
    t1: u64,
    t2: u64,
    r2: Result<(), crate::store::QueueError>,
)
    requires
        send_outcome(s1, s2, q, id1, body1, None, Some(d), None, None, t1, Ok(())),
        s2.messages@.len() == s1.messages@.len() + 1,
        t1 <= t2,
        t2 - t1 < DEDUP_WINDOW_MS,
        send_outcome(s2, s3, q, id2, body2, None, Some(d), None, None, t2, r2),
    ensures
        s3.messages == s2.messages,
        r2 matches Ok(_),
{
    let m = s2.messages@.last();
    assert(opt_view(m.deduplication_id) == effective_dedup(
        s1.fifo_of(q),
        s1.cbd_of(q),
        Some(d),
        body1,
    ));
    assert(m.created_at == t1);
    assert(m.created_at + DEDUP_WINDOW_MS > t2);
    assert(dedup_hit(s2.messages@, q, d, t2)) by {
        assert(s2.messages@[s2.messages@.len() - 1] == m);
    }
}

/// Dead-letter conservation: a promotion moves the message, so afterwards
/// its id is gone from the live table, present in the dead-letter table,
/// and the total number of rows across the two tables is unchanged.
pub proof fn lemma_dlq_conservation(
    pre: Database,
    post: Database,
    id: Seq<char>,
    reason: Seq<char>,
    now: u64,
)
    requires
        pre.wf(),
        promoted(pre, post, id, reason, now),
        !pre.has_dlq_row(id),
    ensures
        !post.has_msg(id),
        post.has_dlq_row(id),
        post.messages@.len() + post.dlq@.len() == pre.messages@.len() + pre.dlq@.len(),
{
    let i = choose|i: int|
        {
            &&& 0 <= i < pre.messages@.len()
            &&& (#[trigger] pre.messages@[i].id@) == id
            &&& pre.messages@[i].status != MsgStatus::Deleted
            &&& post.messages@ == pre.messages@.remove(i)
            &&& (crate::store::dlq_arn_of(pre, pre.messages@[i].queue_name@) matches Some(arn)
                && exists|k: int|
                {
                    &&& 0 <= k < post.dlq@.len()
                    &&& k <= pre.dlq@.len()
                    &&& post.dlq@ == pre.dlq@.insert(k, #[trigger] post.dlq@[k])
                    &&& crate::store::dlq_row_matches(
                        post.dlq@[k],
                        pre.messages@[i],
                        arn,
                        reason,
                        now,
                    )
                })
        };
    if post.has_msg(id) {
        let j = choose|j: int|
            0 <= j < post.messages@.len() && (#[trigger] post.messages@[j].id@) == id;
        let j0: int = if j < i {
            j
        } else {
            j + 1
        };
        assert(post.messages@[j] == pre.messages@[j0]);
        assert(pre.messages@[j0].id@ == pre.messages@[i].id@);
    }
    let k = choose|k: int|
        {
            &&& 0 <= k < post.dlq@.len()
            &&& k <= pre.dlq@.len()
            &&& post.dlq@ == pre.dlq@.insert(k, #[trigger] post.dlq@[k])
            &&& post.dlq@[k].id@ == id
        };
    assert(post.has_dlq_row(id));
    assert(post.messages@.len() == pre.messages@.len() - 1);
    assert(post.dlq@.len() == pre.dlq@.len() + 1);
}

/// Redrive conservation: moving `n` records inserts `n` messages into the
/// source queue and removes exactly `n` dead-letter records; nothing else
/// appears or vanishes.
pub proof fn lemma_redrive_conservation(
    pre: Database,
    post: Database,
    dlqn: Seq<char>,
    srcq: Seq<char>,
    n: int,
)
    requires
        0 <= n <= count_dlq_matches(pre.dlq@, dlqn, srcq),
        post.dlq@ == redrive_rest(pre.dlq@, dlqn, srcq, n),
        post.messages@.len() == pre.messages@.len() + n,
    ensures
        post.dlq@.len() == pre.dlq@.len() - n,
        post.messages@.len() + post.dlq@.len() == pre.messages@.len() + pre.dlq@.len(),
{
    lemma_redrive_len(pre.dlq@, dlqn, srcq, n);
}

/// Retention in keep-forever mode deletes nothing: every row keeps its id,
/// payload and delivery count; the sweep only flips expired leases back to
/// `active`.
pub proof fn lemma_keep_forever_preserves_rows(
    pre: Seq<MessageRow>,
    post: Seq<MessageRow>,
    now: u64,
    i: int,
)
    requires
        post.len() == pre.len(),
        forall|k: int|
            0 <= k < pre.len() ==> post[k] == (if lease_expired(#[trigger] pre[k], now) {
                unleashed(pre[k])
            } else {
                pre[k]
            }),
        0 <= i < pre.len(),
    ensures
        post[i].id@ == pre[i].id@,
        post[i].body@ == pre[i].body@,
        post[i].receive_count == pre[i].receive_count,
        post[i].status != pre[i].status ==> (pre[i].status == MsgStatus::Processing && post[i].status
            == MsgStatus::Active),
{
}

/// The delivery order is total on a well-formed table: of two distinct
/// messages of one queue, one is delivered before the other.
pub proof fn lemma_delivery_order_total(db: Database, fifo: bool, i: int, j: int)
    requires
        db.wf(),
        0 <= i < db.messages@.len(),
        0 <= j < db.messages@.len(),
        i != j,
    ensures
        delivery_before(db.messages@[i], db.messages@[j], fifo) || delivery_before(
            db.messages@[j],
            db.messages@[i],
            fifo,
        ),
{
    lemma_message_ids_unique(db, i, j);
    crate::strutil::lemma_name_total(db.messages@[i].id@, db.messages@[j].id@);
}

} // verus!

verus! {

/// A receive cannot come back empty-handed while an eligible message under
/// its queue's receive limit is waiting: every finished selection trace of
/// a receive call delivers at least one message then.
pub proof fn lemma_receive_delivers(
    pre: crate::store::Database,
    post: crate::store::Database,
    q: Seq<char>,
    now: u64,
    reason: Seq<char>,
    trace: Seq<crate::store::ReceiveOutcome>,
    i: int,
)
    requires
        pre.wf(),
        0 <= i < pre.messages@.len(),
        eligible(pre.messages@[i], q, now),
        forall|j: int|
            0 <= j < pre.messages@.len() && eligible(#[trigger] pre.messages@[j], q, now)
                ==> !crate::store::over_limit(pre, pre.messages@[j]),
        crate::store::receive_trace(pre, post, q, now, reason, trace),
        crate::store::receive_trace_complete(trace, 1),
    ensures
        crate::store::delivered_of(trace).len() > 0,
{
    if crate::store::delivered_of(trace).len() == 0 {
        assert(trace.len() > 0);
        match trace[0] {
            crate::store::ReceiveOutcome::Empty => {
                let m = choose|m: crate::store::Database|
                    m.wf() && #[trigger] crate::store::receive_step_outcome(
                        pre,
                        m,
                        q,
                        now,
                        trace[0],
                    );
                assert(!eligible(pre.messages@[i], q, now));
            },
            crate::store::ReceiveOutcome::Delivered(id, body, created, attrs) => {
                assert(crate::store::delivered_of(trace).len() >= 1);
            },
            crate::store::ReceiveOutcome::Marked(id) => {
                let m = choose|m: crate::store::Database|
                    m.wf() && #[trigger] crate::store::receive_step_outcome(
                        pre,
                        m,
                        q,
                        now,
                        trace[0],
                    );
                let h = choose|h: int|
                    {
                        &&& #[trigger] head_at(pre.messages@, q, now, pre.fifo_of(q), h)
                        &&& crate::store::over_limit(pre, pre.messages@[h])
                        &&& m.messages@ == pre.messages@.update(
                            h,
                            crate::store::marked_update(pre.messages@[h]),
                        )
                        &&& id@ == pre.messages@[h].id@
                    };
                assert(eligible(pre.messages@[h], q, now));
            },
        }
    }
}

} // verus!

verus! {

/// What one delivered selection step does to the table, row by row: the
/// delivered message's count goes up by exactly one (saturating only at the
/// counter's bound), its row becomes `processing` with the queue's lease
/// and `processed_at == now`, and every other row is untouched.
pub proof fn lemma_delivery_increments_exactly(
    pre: Database,
    post: Database,
    q: Seq<char>,
    now: u64,
    id: String,
    body: String,
    created: u64,
    attrs: Option<String>,
)
    requires
        pre.wf(),
        crate::store::receive_step_outcome(
            pre,
            post,
            q,
            now,
            crate::store::ReceiveOutcome::Delivered(id, body, created, attrs),
        ),
    ensures
        exists|i: int|
            {
                &&& 0 <= i < pre.messages@.len()
                &&& (#[trigger] pre.messages@[i].id@) == id@
                &&& post.messages@.len() == pre.messages@.len()
                &&& post.messages@[i].receive_count == crate::store::next_count(
                    pre.messages@[i].receive_count,
                )
                &&& post.messages@[i].status == MsgStatus::Processing
                &&& post.messages@[i].processed_at == Some(now)
                &&& post.messages@[i].visibility_deadline == Some(
                    crate::store::sat64(now + pre.visibility_ms(q)),
                )
                &&& (forall|j: int|
                    0 <= j < pre.messages@.len() && j != i ==> #[trigger] post.messages@[j]
                        == pre.messages@[j])
            },
{
    let i = choose|i: int|
        {
            &&& #[trigger] head_at(pre.messages@, q, now, pre.fifo_of(q), i)
            &&& !crate::store::over_limit(pre, pre.messages@[i])
            &&& post.messages@ == pre.messages@.update(
                i,
                crate::store::received_update(pre.messages@[i], now, pre.visibility_ms(q)),
            )
            &&& id@ == pre.messages@[i].id@
            &&& body@ == pre.messages@[i].body@
            &&& created == pre.messages@[i].created_at
            &&& opt_view(attrs) == opt_view(pre.messages@[i].attributes)
        };
    assert(post.messages@[i] == crate::store::received_update(
        pre.messages@[i],
        now,
        pre.visibility_ms(q),
    ));
    assert forall|j: int|
        0 <= j < pre.messages@.len() && j != i implies #[trigger] post.messages@[j]
        == pre.messages@[j] by {}
}

} // verus!
