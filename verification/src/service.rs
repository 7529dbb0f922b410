//! The queue engine's in-process API: everything an adapter needs, from
//! queue management through sends, receives, dead-letter handling and the
//! retention sweep. Each operation takes the current instant in
//! milliseconds; waiting (long polling) is the caller's loop around
//! `receive_messages_enhanced`, woken by its own notifier.

use vstd::prelude::*;
use crate::store::batch_cap;
use crate::store::batch_delete_rel;
use crate::store::batch_send_rel;
use crate::store::Database;
use crate::store::DeliveredMsg;
use crate::store::DlqRow;
use crate::store::MessageRow;
use crate::store::QueueAttributes;
use crate::store::QueueError;
use crate::store::QueueMetric;
use crate::store::SendMessageParams;
use crate::store::count_dlq_matches;
use crate::store::delivered_row;
use crate::store::eligible;
use crate::store::opt_view;
use crate::store::redrive_rest;
use crate::store::receive_trace;
use crate::store::receive_trace_complete;
use crate::store::delivered_of;
use crate::store::ReceiveOutcome;
use crate::store::rows_evolved;
use crate::store::sat_add_u64;
use crate::store::send_outcome;
use crate::strutil::is_fifo_name;
use crate::strutil::str_is_fifo_name;
use vstd::string::StrSliceExecFns;
use vstd::string::StringExecFns;

verus! {

/// The engine: the verified store under an API shaped for adapters.
pub struct QueueService {
    pub db: Database,
}

/// The envelopes handed to the caller correspond one-for-one, in order, to
/// the delivered entries of a receive trace; each receipt handle is its
/// message id.
pub open spec fn envelopes_match(
    v: Seq<crate::message::ReceivedMessage>,
    d: Seq<DeliveredMsg>,
) -> bool {
    &&& v.len() == d.len()
    &&& forall|x: int|
        0 <= x < v.len() ==> {
            &&& (#[trigger] v[x]).id == d[x].0
            &&& v[x].body == d[x].1
            &&& v[x].attributes == d[x].3
            &&& v[x].receipt_handle@ == v[x].id@
        }
}

impl QueueService {
    pub open spec fn wf(self) -> bool {
        self.db.wf()
    }

    /// A fresh engine over an empty store.
    pub fn new() -> (r: Self)
        ensures
            r.wf(),
            r.db.queues@.len() == 0,
            r.db.configs@.len() == 0,
            r.db.messages@.len() == 0,
            r.db.dlq@.len() == 0,
    {
        QueueService { db: Database::new() }
    }

    /// Creates a queue. A name with the FIFO suffix must have more than the
    /// suffix; a fresh FIFO queue starts with content-based deduplication on
    /// and the stock defaults. Re-creating an existing queue is a complete
    /// no-op: nothing changes, its configuration included.
    pub fn create_queue(&mut self, queue_name: &str, now: u64) -> (r: Result<(), QueueError>)
        requires
            old(self).wf(),
        ensures
            final(self).wf(),
            r matches Err(e) ==> (e matches QueueError::Validation(_)) && is_fifo_name(queue_name@)
                && queue_name@.len() <= 5 && *final(self) == *old(self),
            r matches Ok(_) ==> !(is_fifo_name(queue_name@) && queue_name@.len() <= 5),
            r matches Ok(_) && old(self).db.has_queue(queue_name@) ==> *final(self) == *old(self),
            r matches Ok(_) && !old(self).db.has_queue(queue_name@) ==> {
                &&& final(self).db.has_queue(queue_name@)
                &&& final(self).db.messages == old(self).db.messages
                &&& final(self).db.dlq == old(self).db.dlq
                &&& (exists|i: int|
                    {
                        &&& 0 <= i <= old(self).db.queues@.len()
                        &&& #[trigger] final(self).db.queues@ == old(self).db.queues@.insert(
                            i,
                            final(self).db.queues@[i],
                        )
                        &&& final(self).db.queues@[i].name@ == queue_name@
                        &&& final(self).db.queues@[i].created_at == now
                    })
                &&& (forall|q2: Seq<char>|
                    q2 != queue_name@ ==> (#[trigger] final(self).db.has_queue(q2) == old(
                        self,
                    ).db.has_queue(q2)))
                &&& is_fifo_name(queue_name@) ==> {
                    &&& final(self).db.spec_config(queue_name@) matches Some(c) && {
                        &&& c.name@ == queue_name@
                        &&& c.is_fifo
                        &&& c.content_based_deduplication
                        &&& c.visibility_timeout_seconds == 30
                        &&& c.message_retention_period_seconds == 1209600
                        &&& c.max_receive_count == Some(10u32)
                        &&& c.dead_letter_target_arn matches None
                        &&& c.delay_seconds == 0
                        &&& c.receive_message_wait_time_seconds == 0
                    }
                    &&& (forall|q2: Seq<char>|
                        q2 != queue_name@ ==> #[trigger] final(self).db.spec_config(q2) == old(
                            self,
                        ).db.spec_config(q2))
                }
                &&& !is_fifo_name(queue_name@) ==> final(self).db.configs == old(self).db.configs
            },
    {
        let is_fifo = str_is_fifo_name(queue_name);
        if is_fifo && queue_name.unicode_len() <= 5 {
            return Err(
                QueueError::Validation(
                    "FIFO queue name must be more than just .fifo suffix".to_owned(),
                ),
            );
        }
        if self.db.queue_exists(queue_name) {
            return Ok(());
        }
        if is_fifo {
            let config = crate::config::QueueConfig::new(queue_name.to_owned(), true);
            let _ = self.db.create_queue_with_config(config, now);
        } else {
            let _ = self.db.create_queue(queue_name, now);
        }
        Ok(())
    }

    /// Creates the queue and stores the given configuration.
    pub fn create_queue_with_config(
        &mut self,
        config: crate::config::QueueConfig,
        now: u64,
    ) -> (r: Result<(), QueueError>)
        requires
            old(self).wf(),
        ensures
            final(self).wf(),
            r matches Ok(_),
            final(self).db.has_queue(config.name@),
            final(self).db.spec_config(config.name@) == Some(config),
            final(self).db.messages == old(self).db.messages,
            final(self).db.dlq == old(self).db.dlq,
    {
        self.db.create_queue_with_config(config, now)
    }

    /// Sends a message with a freshly drawn id and no delay or group; the
    /// new id is returned. The store changes exactly as a send with that id
    /// does.
    pub fn send_message(
        &mut self,
        queue_name: &str,
        body: &str,
        attributes: Option<String>,
        deduplication_id: Option<String>,
        now: u64,
    ) -> (r: Result<String, QueueError>)
        requires
            old(self).wf(),
        ensures
            final(self).wf(),
            match r {
                Ok(id) => id@.len() == 36 && send_outcome(
                    old(self).db,
                    final(self).db,
                    queue_name@,
                    id@,
                    body@,
                    opt_view(attributes),
                    opt_view(deduplication_id),
                    None,
                    None,
                    now,
                    Ok(()),
                ),
                Err(e) => exists|idv: Seq<char>|
                    #[trigger] send_outcome(
                        old(self).db,
                        final(self).db,
                        queue_name@,
                        idv,
                        body@,
                        opt_view(attributes),
                        opt_view(deduplication_id),
                        None,
                        None,
                        now,
                        Err(e),
                    ),
            },
    {
        let id = crate::outside::fresh_message_id();
        let ghost idv = id@;
        match self.db.send_message(
            queue_name,
            id.as_str(),
            body,
            attributes,
            deduplication_id,
            now,
        ) {
            Ok(_) => Ok(id),
            Err(e) => {
                proof {
                    assert(send_outcome(
                        old(self).db,
                        self.db,
                        queue_name@,
                        idv,
                        body@,
                        opt_view(attributes),
                        opt_view(deduplication_id),
                        None,
                        None,
                        now,
                        Err(e),
                    ));
                }
                Err(e)
            },
        }
    }

    /// Sends with a delivery delay; FIFO grouping falls to the default
    /// group.
    pub fn send_message_enhanced(
        &mut self,
        queue_name: &str,
        body: &str,
        attributes: Option<String>,
        deduplication_id: Option<String>,
        delay_seconds: u32,
        now: u64,
    ) -> (r: Result<String, QueueError>)
        requires
            old(self).wf(),
        ensures
            final(self).wf(),
            match r {
                Ok(id) => id@.len() == 36 && send_outcome(
                    old(self).db,
                    final(self).db,
                    queue_name@,
                    id@,
                    body@,
                    opt_view(attributes),
                    opt_view(deduplication_id),
                    spec_delay_until(delay_seconds, now),
                    None,
                    now,
                    Ok(()),
                ),
                Err(e) => exists|idv: Seq<char>|
                    #[trigger] send_outcome(
                        old(self).db,
                        final(self).db,
                        queue_name@,
                        idv,
                        body@,
                        opt_view(attributes),
                        opt_view(deduplication_id),
                        spec_delay_until(delay_seconds, now),
                        None,
                        now,
                        Err(e),
                    ),
            },
    {
        self.send_message_enhanced_with_group(
            queue_name,
            body,
            attributes,
            deduplication_id,
            delay_seconds,
            None,
            now,
        )
    }

    /// Sends with a delivery delay and an explicit message group.
    pub fn send_message_enhanced_with_group(
        &mut self,
        queue_name: &str,
        body: &str,
        attributes: Option<String>,
        deduplication_id: Option<String>,
        delay_seconds: u32,
        message_group_id: Option<String>,
        now: u64,
    ) -> (r: Result<String, QueueError>)
        requires
            old(self).wf(),
        ensures
            final(self).wf(),
            match r {
                Ok(id) => id@.len() == 36 && send_outcome(
                    old(self).db,
                    final(self).db,
                    queue_name@,
                    id@,
                    body@,
                    opt_view(attributes),
                    opt_view(deduplication_id),
                    spec_delay_until(delay_seconds, now),
                    opt_view(message_group_id),
                    now,
                    Ok(()),
                ),
                Err(e) => exists|idv: Seq<char>|
                    #[trigger] send_outcome(
                        old(self).db,
                        final(self).db,
                        queue_name@,
                        idv,
                        body@,
                        opt_view(attributes),
                        opt_view(deduplication_id),
                        spec_delay_until(delay_seconds, now),
                        opt_view(message_group_id),
                        now,
                        Err(e),
                    ),
            },
    {
        let id = crate::outside::fresh_message_id();
        let delay_until: Option<u64> = if delay_seconds > 0 {
            Some(sat_add_u64(now, (delay_seconds as u64) * 1000))
        } else {
            None
        };
        let params = SendMessageParams {
            queue_name: queue_name.to_owned(),
            message_id: id.clone(),
            body: body.to_owned(),
            attributes,
            deduplication_id,
            delay_until,
            message_group_id,
        };
        let ghost idv = id@;
        match self.db.send_message_with_delay_and_group(params, now) {
            Ok(_) => Ok(id),
            Err(e) => {
                proof {
                    assert(send_outcome(
                        old(self).db,
                        self.db,
                        queue_name@,
                        idv,
                        body@,
                        opt_view(attributes),
                        opt_view(deduplication_id),
                        spec_delay_until(delay_seconds, now),
                        opt_view(message_group_id),
                        now,
                        Err(e),
                    ));
                }
                Err(e)
            },
        }
    }

    /// Receives at most one message; the receipt handle is the message id.
    pub fn receive_message(&mut self, queue_name: &str, now: u64) -> (r: Result<
        Option<crate::message::ReceivedMessage>,
        QueueError,
    >)
        requires
            old(self).wf(),
        ensures
            final(self).wf(),
            final(self).db.queues == old(self).db.queues,
            final(self).db.configs == old(self).db.configs,
            rows_evolved(old(self).db.messages@, final(self).db.messages@),
            match r {
                Ok(Some(m)) => m.receipt_handle@ == m.id@ && exists|c: u64|
                    #[trigger] delivered_row(
                        final(self).db,
                        (m.id, m.body, c, m.attributes),
                        queue_name@,
                        now,
                    ),
                Ok(None) => forall|j: int|
                    0 <= j < final(self).db.messages@.len() ==> !eligible(
                        #[trigger] final(self).db.messages@[j],
                        queue_name@,
                        now,
                    ),
                Err(_) => false,
            },
            exists|reason: Seq<char>, trace: Seq<ReceiveOutcome>|
                {
                    &&& #[trigger] receive_trace(
                        old(self).db,
                        final(self).db,
                        queue_name@,
                        now,
                        reason,
                        trace,
                    )
                    &&& receive_trace_complete(trace, 1)
                    &&& match r {
                        Ok(Some(m)) => exists|c: u64|
                            delivered_of(trace) == seq![(m.id, m.body, c, m.attributes)],
                        Ok(None) => delivered_of(trace).len() == 0,
                        Err(_) => false,
                    }
                },
    {
        let got = self.db.receive_message(queue_name, now);
        let ghost got_spec = got;
        proof {
            let (reason, trace) = choose|reason: Seq<char>, trace: Seq<ReceiveOutcome>|
                {
                    &&& #[trigger] receive_trace(
                        old(self).db,
                        self.db,
                        queue_name@,
                        now,
                        reason,
                        trace,
                    )
                    &&& receive_trace_complete(trace, 1)
                    &&& match got_spec {
                        Some(t) => delivered_of(trace) == seq![t],
                        None => delivered_of(trace).len() == 0,
                    }
                };
        }
        match got {
            Some((id, body, created, attrs)) => {
                let m = crate::message::ReceivedMessage::new(id, body, attrs);
                proof {
                    assert(delivered_row(
                        self.db,
                        (m.id, m.body, created, m.attributes),
                        queue_name@,
                        now,
                    ));
                    let t = got_spec.unwrap();
                    assert(t == (m.id, m.body, t.2, m.attributes));
                }
                Ok(Some(m))
            },
            None => Ok(None),
        }
    }

    /// Receives with dead-letter handling; selection already promotes, so
    /// this is a plain receive with the same trace-of-selections contract.
    pub fn receive_message_with_dlq(&mut self, queue_name: &str, now: u64) -> (r: Result<
        Option<crate::message::ReceivedMessage>,
        QueueError,
    >)
        requires
            old(self).wf(),
        ensures
            final(self).wf(),
            final(self).db.queues == old(self).db.queues,
            final(self).db.configs == old(self).db.configs,
            rows_evolved(old(self).db.messages@, final(self).db.messages@),
            match r {
                Ok(Some(m)) => m.receipt_handle@ == m.id@,
                Ok(None) => forall|j: int|
                    0 <= j < final(self).db.messages@.len() ==> !eligible(
                        #[trigger] final(self).db.messages@[j],
                        queue_name@,
                        now,
                    ),
                Err(_) => false,
            },
            exists|reason: Seq<char>, trace: Seq<ReceiveOutcome>|
                {
                    &&& #[trigger] receive_trace(
                        old(self).db,
                        final(self).db,
                        queue_name@,
                        now,
                        reason,
                        trace,
                    )
                    &&& receive_trace_complete(trace, 1)
                    &&& match r {
                        Ok(Some(m)) => exists|c: u64|
                            delivered_of(trace) == seq![(m.id, m.body, c, m.attributes)],
                        Ok(None) => delivered_of(trace).len() == 0,
                        Err(_) => false,
                    }
                },
    {
        self.receive_message(queue_name, now)
    }

    /// Receives up to `max_messages` messages (capped at ten); with no
    /// message ready the result is empty, and the caller's long-poll loop
    /// retries on its own wakeup or timeout. The store evolves by a trace
    /// of head selections (with dead-letter promotion of over-limit heads),
    /// and the envelopes are exactly that trace's deliveries, in order.
    #[verifier::rlimit(60)]
    pub fn receive_messages_enhanced(
        &mut self,
        queue_name: &str,
        max_messages: u32,
        wait_time_seconds: u32,
        now: u64,
    ) -> (r: Result<Vec<crate::message::ReceivedMessage>, QueueError>)
        requires
            old(self).wf(),
        ensures
            final(self).wf(),
            final(self).db.queues == old(self).db.queues,
            final(self).db.configs == old(self).db.configs,
            rows_evolved(old(self).db.messages@, final(self).db.messages@),
            match r {
                Ok(v) => {
                    &&& v@.len() <= batch_cap(max_messages)
                    &&& (forall|x: int|
                        0 <= x < v@.len() ==> (#[trigger] v@[x].receipt_handle@) == v@[x].id@
                            && exists|c: u64|
                            delivered_row(
                                final(self).db,
                                (v@[x].id, v@[x].body, c, v@[x].attributes),
                                queue_name@,
                                now,
                            ))
                    &&& v@.len() < batch_cap(max_messages) ==> (forall|j: int|
                        0 <= j < final(self).db.messages@.len() ==> !eligible(
                            #[trigger] final(self).db.messages@[j],
                            queue_name@,
                            now,
                        ))
                },
                Err(_) => false,
            },
            exists|reason: Seq<char>, trace: Seq<ReceiveOutcome>|
                {
                    &&& #[trigger] receive_trace(
                        old(self).db,
                        final(self).db,
                        queue_name@,
                        now,
                        reason,
                        trace,
                    )
                    &&& receive_trace_complete(trace, batch_cap(max_messages))
                    &&& match r {
                        Ok(v) => envelopes_match(v@, delivered_of(trace)),
                        Err(_) => false,
                    }
                },
    {
        let got = self.db.receive_messages(queue_name, max_messages, now);
        let ghost gotv = got@;
        let mut rest = got;
        let mut out: Vec<crate::message::ReceivedMessage> = Vec::new();
        proof {
            assert(rest@ =~= gotv.skip(0));
        }
        while rest.len() > 0
            invariant
                self.wf(),
                out@.len() + rest@.len() == gotv.len(),
                rest@ == gotv.skip(out@.len() as int),
                forall|x: int|
                    0 <= x < out@.len() ==> (#[trigger] out@[x].receipt_handle@) == out@[x].id@
                        && exists|c: u64|
                        delivered_row(
                            self.db,
                            (out@[x].id, out@[x].body, c, out@[x].attributes),
                            queue_name@,
                            now,
                        ),
                forall|x: int|
                    0 <= x < out@.len() ==> (#[trigger] out@[x]).id == gotv[x].0 && out@[x].body
                        == gotv[x].1 && out@[x].attributes == gotv[x].3,
                forall|x: int|
                    0 <= x < gotv.len() ==> delivered_row(
                        self.db,
                        #[trigger] gotv[x],
                        queue_name@,
                        now,
                    ),
            decreases rest@.len(),
        {
            let ghost y0 = out@.len() as int;
            proof {
                assert(rest@[0] == gotv[y0]);
                assert(rest@.remove(0) =~= gotv.skip(y0 + 1));
            }
            let (id, body, created, attrs) = rest.remove(0);
            let m = crate::message::ReceivedMessage::new(id, body, attrs);
            proof {
                assert(delivered_row(self.db, gotv[y0], queue_name@, now));
                assert((m.id, m.body, created, m.attributes) == gotv[y0]);
            }
            out.push(m);
        }
        proof {
            let (reason, trace) = choose|reason: Seq<char>, trace: Seq<ReceiveOutcome>|
                {
                    &&& #[trigger] receive_trace(
                        old(self).db,
                        self.db,
                        queue_name@,
                        now,
                        reason,
                        trace,
                    )
                    &&& gotv == delivered_of(trace)
                    &&& receive_trace_complete(trace, batch_cap(max_messages))
                };
            assert(envelopes_match(out@, delivered_of(trace)));
            assert(receive_trace(old(self).db, self.db, queue_name@, now, reason, trace));
        }
        Ok(out)
    }

    /// One-shot batch receive, capped at ten; the same trace-of-selections
    /// contract as the long-poll receive.
    #[verifier::rlimit(60)]
    pub fn receive_messages_batch(&mut self, queue_name: &str, max_messages: u32, now: u64) -> (r:
        Result<Vec<crate::message::ReceivedMessage>, QueueError>)
        requires
            old(self).wf(),
        ensures
            final(self).wf(),
            final(self).db.queues == old(self).db.queues,
            final(self).db.configs == old(self).db.configs,
            rows_evolved(old(self).db.messages@, final(self).db.messages@),
            match r {
                Ok(v) => {
                    &&& v@.len() <= batch_cap(max_messages)
                    &&& v@.len() < batch_cap(max_messages) ==> (forall|j: int|
                        0 <= j < final(self).db.messages@.len() ==> !eligible(
                            #[trigger] final(self).db.messages@[j],
                            queue_name@,
                            now,
                        ))
                },
                Err(_) => false,
            },
            exists|reason: Seq<char>, trace: Seq<ReceiveOutcome>|
                {
                    &&& #[trigger] receive_trace(
                        old(self).db,
                        final(self).db,
                        queue_name@,
                        now,
                        reason,
                        trace,
                    )
                    &&& receive_trace_complete(trace, batch_cap(max_messages))
                    &&& match r {
                        Ok(v) => envelopes_match(v@, delivered_of(trace)),
                        Err(_) => false,
                    }
                },
    {
        self.receive_messages_enhanced(queue_name, max_messages, 0, now)
    }

    /// Deletes by receipt handle (the message id). Yields `true` exactly
    /// when a live row with this id existed.
    pub fn delete_message(&mut self, receipt_handle: &str, now: u64) -> (r: Result<
        bool,
        QueueError,
    >)
        requires
            old(self).wf(),
        ensures
            final(self).wf(),
            final(self).db.queues == old(self).db.queues,
            final(self).db.configs == old(self).db.configs,
            final(self).db.dlq == old(self).db.dlq,
            rows_evolved(old(self).db.messages@, final(self).db.messages@),
            match r {
                Ok(true) => exists|i: int|
                    {
                        &&& 0 <= i < old(self).db.messages@.len()
                        &&& (#[trigger] old(self).db.messages@[i].id@) == receipt_handle@
                        &&& old(self).db.messages@[i].status != crate::store::MsgStatus::Deleted
                        &&& final(self).db.messages@ == old(self).db.messages@.update(
                            i,
                            crate::store::deleted_update(old(self).db.messages@[i], now),
                        )
                    },
                Ok(false) => *final(self) == *old(self),
                Err(_) => false,
            },
    {
        self.db.delete_message(receipt_handle, now)
    }

    /// Removes the queue and its messages; `true` exactly when it existed.
    pub fn delete_queue(&mut self, queue_name: &str) -> (r: Result<bool, QueueError>)
        requires
            old(self).wf(),
        ensures
            final(self).wf(),
            r matches Ok(b) && b == old(self).db.has_queue(queue_name@),
            !final(self).db.has_queue(queue_name@),
            final(self).db.messages@ == crate::store::remove_queue_msgs(
                old(self).db.messages@,
                queue_name@,
            ),
            final(self).db.configs == old(self).db.configs,
            final(self).db.dlq == old(self).db.dlq,
    {
        self.db.delete_queue(queue_name)
    }

    /// Restores a message to `active`; `true` exactly when this changed it.
    pub fn restore_message(&mut self, message_id: &str) -> (r: Result<bool, QueueError>)
        requires
            old(self).wf(),
        ensures
            final(self).wf(),
            final(self).db.queues == old(self).db.queues,
            final(self).db.configs == old(self).db.configs,
            final(self).db.dlq == old(self).db.dlq,
            rows_evolved(old(self).db.messages@, final(self).db.messages@),
            match r {
                Ok(true) => exists|i: int|
                    {
                        &&& 0 <= i < old(self).db.messages@.len()
                        &&& (#[trigger] old(self).db.messages@[i].id@) == message_id@
                        &&& !crate::store::already_restored(old(self).db.messages@[i])
                        &&& final(self).db.messages@ == old(self).db.messages@.update(
                            i,
                            crate::store::restored_update(old(self).db.messages@[i]),
                        )
                    },
                Ok(false) => *final(self) == *old(self),
                Err(_) => false,
            },
    {
        self.db.restore_message(message_id)
    }

    /// Every queue with its creation instant, in name order.
    pub fn list_queues(&self) -> (r: Vec<(String, u64)>)
        requires
            self.wf(),
        ensures
            crate::store::queue_listing(r@, self.db.queues@),
    {
        self.db.list_queues()
    }

    /// The queue's approximate counts, or nothing for an unknown queue.
    pub fn get_queue_attributes(&self, queue_name: &str, now: u64) -> (r: Result<
        Option<QueueAttributes>,
        QueueError,
    >)
        requires
            self.wf(),
        ensures
            r matches Ok(a) && (match a {
                Some(at) => {
                    &&& self.db.has_queue(queue_name@)
                    &&& at.approximate_number_of_messages == crate::store::sat32(
                        crate::store::count_visible(self.db.messages@, queue_name@, now) as int,
                    )
                    &&& at.approximate_number_of_messages_not_visible == crate::store::sat32(
                        crate::store::count_active(self.db.messages@, queue_name@) as int
                            - crate::store::count_visible(
                            self.db.messages@,
                            queue_name@,
                            now,
                        ) as int,
                    )
                },
                None => !self.db.has_queue(queue_name@),
            }),
            r matches Ok(a) && (a matches Some(at) ==> exists|i: int|
                0 <= i < self.db.queues@.len() && (#[trigger] self.db.queues@[i].name@)
                    == queue_name@ && at.created_timestamp == self.db.queues@[i].created_at),
    {
        Ok(self.db.get_queue_attributes(queue_name, now))
    }

    /// The active messages of the queue.
    pub fn get_queue_messages(&self, queue_name: &str) -> (r: Result<Vec<MessageRow>, QueueError>)
        requires
            self.wf(),
        ensures
            r matches Ok(v) && v@ == crate::store::active_msgs_of(self.db.messages@, queue_name@),
    {
        Ok(self.db.get_queue_messages(queue_name))
    }

    /// Every message of the queue, whatever its state.
    pub fn get_all_queue_messages(&self, queue_name: &str) -> (r: Result<
        Vec<MessageRow>,
        QueueError,
    >)
        requires
            self.wf(),
        ensures
            r matches Ok(v) && v@ == crate::store::all_msgs_of(self.db.messages@, queue_name@),
    {
        Ok(self.db.get_all_queue_messages(queue_name))
    }

    /// Moves a message to its queue's dead-letter target: `true` means it
    /// moved; `false`, with nothing changed, means no live row with the id
    /// exists or its queue names no target; an error is only the
    /// duplicate-record clash.
    pub fn move_message_to_dlq(
        &mut self,
        message_id: &str,
        failure_reason: &str,
        now: u64,
    ) -> (r: Result<bool, QueueError>)
        requires
            old(self).wf(),
        ensures
            final(self).wf(),
            crate::store::move_to_dlq_outcome(
                old(self).db,
                final(self).db,
                message_id@,
                failure_reason@,
                now,
                r,
            ),
    {
        self.db.move_message_to_dlq(message_id, failure_reason, now)
    }

    /// The dead-letter records of the queue, newest first.
    pub fn get_dlq_messages(&self, dlq_name: &str) -> (r: Result<Vec<DlqRow>, QueueError>)
        requires
            self.wf(),
        ensures
            r matches Ok(v) && v@ == crate::store::dlq_of(self.db.dlq@, dlq_name@),
    {
        Ok(self.db.get_dlq_messages(dlq_name))
    }

    /// Redrives dead-letter records back to the source queue; reports how
    /// many moved.
    pub fn redrive_dlq_messages(
        &mut self,
        dlq_name: &str,
        source_queue: &str,
        max_messages: Option<u32>,
        now: u64,
    ) -> (r: Result<u32, QueueError>)
        requires
            old(self).wf(),
        ensures
            final(self).wf(),
            match r {
                Ok(c) => {
                    let limit = match max_messages {
                        Some(m) => m,
                        None => 10,
                    };
                    let matched = count_dlq_matches(old(self).db.dlq@, dlq_name@, source_queue@);
                    &&& c as int == (if (limit as int) <= matched {
                        limit as int
                    } else {
                        matched as int
                    })
                    &&& final(self).db.dlq@ == redrive_rest(
                        old(self).db.dlq@,
                        dlq_name@,
                        source_queue@,
                        c as int,
                    )
                    &&& final(self).db.dlq@.len() + c == old(self).db.dlq@.len()
                    &&& final(self).db.messages@.len() == old(self).db.messages@.len() + c
                },
                Err(_) => *final(self) == *old(self),
            },
            (match max_messages {
                Some(m) => m,
                None => 10,
            }) == 0 || count_dlq_matches(old(self).db.dlq@, dlq_name@, source_queue@) == 0
                ==> r matches Ok(_),
    {
        self.db.redrive_dlq_messages(dlq_name, source_queue, max_messages, now)
    }

    /// Empties the dead-letter table of the queue; reports how many records
    /// went.
    pub fn purge_dlq(&mut self, dlq_name: &str) -> (r: Result<u32, QueueError>)
        requires
            old(self).wf(),
        ensures
            final(self).wf(),
            final(self).db.dlq@ == crate::store::dlq_without(old(self).db.dlq@, dlq_name@),
            final(self).db.messages == old(self).db.messages,
            r matches Ok(_),
    {
        self.db.purge_dlq(dlq_name)
    }

    /// Accepts a per-queue metric; the engine keeps no metric history.
    pub fn record_metric(&mut self, queue_name: &str, metric: &QueueMetric) -> (r: Result<
        (),
        QueueError,
    >)
        requires
            old(self).wf(),
        ensures
            final(self).wf(),
            *final(self) == *old(self),
            r matches Ok(_),
    {
        self.db.record_queue_metric(queue_name, metric)
    }

    /// Runs one retention sweep: in keep-forever mode expired leases (and
    /// nothing else) flip back to `active` and are counted; in delete mode
    /// rows older than the cutoff are removed and counted.
    pub fn cleanup_expired_messages(
        &mut self,
        retention_config: &crate::config::RetentionConfig,
        now: u64,
    ) -> (r: Result<u32, QueueError>)
        requires
            old(self).wf(),
        ensures
            final(self).wf(),
            crate::store::cleanup_outcome(
                old(self).db,
                final(self).db,
                *retention_config,
                now,
                r,
            ),
    {
        self.db.cleanup_expired_messages(retention_config, now)
    }

    /// The stored configuration of the queue, if any.
    pub fn get_queue_config(&self, queue_name: &str) -> (r: Result<
        Option<crate::config::QueueConfig>,
        QueueError,
    >)
        requires
            self.wf(),
        ensures
            r matches Ok(c) && c == self.db.spec_config(queue_name@),
    {
        Ok(self.db.get_queue_config(queue_name))
    }

    /// Applies caller-supplied attributes to the queue's configuration:
    /// numeric windows from their decimal values, the receive limit and
    /// dead-letter target from the redrive policy document.
    pub fn set_queue_attributes(
        &mut self,
        queue_name: &str,
        attributes: &Vec<(String, String)>,
    ) -> (r: Result<(), QueueError>)
        requires
            old(self).wf(),
        ensures
            final(self).wf(),
            r matches Ok(_),
            final(self).db.messages == old(self).db.messages,
            final(self).db.queues == old(self).db.queues,
            final(self).db.dlq == old(self).db.dlq,
            forall|q2: Seq<char>|
                q2 != queue_name@ ==> #[trigger] final(self).db.spec_config(q2) == old(
                    self,
                ).db.spec_config(q2),
            final(self).db.spec_config(queue_name@) matches Some(c) && {
                &&& c.name@ == queue_name@
                &&& c.is_fifo == old(self).db.fifo_of(queue_name@)
                &&& c.visibility_timeout_seconds == crate::store::parsed_or(
                    crate::store::assoc(attributes@, "VisibilityTimeout"@),
                    30,
                )
                &&& c.max_receive_count == crate::store::policy_max_rc(
                    crate::store::attrs_policy(attributes@),
                )
                &&& opt_view(c.dead_letter_target_arn) == crate::store::attrs_policy(
                    attributes@,
                ).1
            },
    {
        self.db.set_queue_attributes(queue_name, attributes)
    }

    /// Sends a batch of pre-assembled entries in order.
    pub fn send_messages_batch(
        &mut self,
        entries: Vec<SendMessageParams>,
        now: u64,
    ) -> (r: Result<Vec<Result<(), QueueError>>, QueueError>)
        requires
            old(self).wf(),
        ensures
            final(self).wf(),
            r matches Ok(v) && v@.len() == entries@.len() && batch_send_rel(
                old(self).db,
                final(self).db,
                entries@,
                now,
                v@,
            ),
    {
        Ok(self.db.send_messages_batch(entries, now))
    }

    /// Deletes a batch of receipts in order.
    pub fn delete_messages_batch(&mut self, message_ids: Vec<String>, now: u64) -> (r: Result<
        Vec<Result<bool, QueueError>>,
        QueueError,
    >)
        requires
            old(self).wf(),
        ensures
            final(self).wf(),
            r matches Ok(v) && v@.len() == message_ids@.len() && batch_delete_rel(
                old(self).db,
                final(self).db,
                message_ids@,
                now,
                v@,
            ),
    {
        Ok(self.db.delete_messages_batch(message_ids, now))
    }
}

/// The delivery delay instant a send computes: `now + delay` for a positive
/// delay, none otherwise.
pub open spec fn spec_delay_until(delay_seconds: u32, now: u64) -> Option<u64> {
    if delay_seconds > 0 {
        Some(crate::store::sat64(now + delay_seconds * 1000))
    } else {
        None
    }
}

/// The cron expression of the retention cadence: every minute under one
/// minute, every `n/60` minutes under one hour, else every `n/3600` hours.
pub fn cleanup_cron_expression(cleanup_interval_seconds: u32) -> (r: String)
    ensures
        cleanup_interval_seconds < 60 ==> r@ == "0 * * * * *"@,
        60 <= cleanup_interval_seconds < 3600 ==> r@ == "0 */"@ + crate::strutil::dec_string_of(
            cleanup_interval_seconds as int / 60,
        ) + " * * * *"@,
        cleanup_interval_seconds >= 3600 ==> r@ == "0 0 */"@ + crate::strutil::dec_string_of(
            cleanup_interval_seconds as int / 3600,
        ) + " * * *"@,
{
    if cleanup_interval_seconds < 60 {
        "0 * * * * *".to_owned()
    } else if cleanup_interval_seconds < 3600 {
        let mut s = "0 */".to_owned();
        let m = crate::strutil::u32_to_dec(cleanup_interval_seconds / 60);
        s.append(m.as_str());
        s.append(" * * * *");
        s
    } else {
        let mut s = "0 0 */".to_owned();
        let h = crate::strutil::u32_to_dec(cleanup_interval_seconds / 3600);
        s.append(h.as_str());
        s.append(" * * *");
        s
    }
}

} // verus!
