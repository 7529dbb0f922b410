//! The data the admin pages display, and the aggregation that fills the
//! dashboard. Rendering lives with the adapter; the sums are computed and
//! proved here.

use vstd::prelude::*;

verus! {

/// One queue line of the dashboard.
#[derive(Debug, Clone)]
pub struct QueueInfo {
    pub name: String,
    pub created_at: u64,
    pub available_messages: u32,
    pub in_flight_messages: u32,
}

/// One message line of the queue page.
#[derive(Debug, Clone)]
pub struct MessageInfo {
    pub id: String,
    pub body: String,
    pub created_at: u64,
    pub visibility_timeout: Option<u64>,
    pub receive_count: u32,
    pub attributes: Option<String>,
    pub deduplication_id: Option<String>,
    pub status: String,
    pub processed_at: Option<u64>,
    pub deleted_at: Option<u64>,
}

/// The dashboard: every queue with the totals over all of them.
#[derive(Debug)]
pub struct DashboardTemplate {
    pub queues: Vec<QueueInfo>,
    pub messages: Vec<MessageInfo>,
    pub total_queues: usize,
    pub total_available_messages: usize,
    pub total_in_flight_messages: usize,
    pub total_messages: usize,
}

/// The queue page: its messages.
#[derive(Debug)]
pub struct MessagesTemplate {
    pub messages: Vec<MessageInfo>,
}

/// The form a queue is created from.
#[derive(Debug)]
pub struct CreateQueueForm {
    pub queue_name: String,
}

/// A plain success-or-failure answer for the page's calls.
#[derive(Debug)]
pub struct ApiResponse {
    pub success: bool,
    pub message: String,
}

/// The available messages of the first `n` queue lines, summed without
/// bound.
pub open spec fn sum_available(s: Seq<QueueInfo>, n: int) -> int
    decreases n,
{
    if n <= 0 {
        0
    } else {
        sum_available(s, n - 1) + s[n - 1].available_messages
    }
}

/// The in-flight messages of the first `n` queue lines, summed without
/// bound.
pub open spec fn sum_in_flight(s: Seq<QueueInfo>, n: int) -> int
    decreases n,
{
    if n <= 0 {
        0
    } else {
        sum_in_flight(s, n - 1) + s[n - 1].in_flight_messages
    }
}

/// A sum clamped into `usize`.
pub open spec fn sat_usize(x: int) -> usize {
    if x > usize::MAX as int {
        usize::MAX
    } else if x < 0 {
        0
    } else {
        x as usize
    }
}

pub proof fn lemma_sums_nonneg(s: Seq<QueueInfo>, n: int)
    ensures
        sum_available(s, n) >= 0,
        sum_in_flight(s, n) >= 0,
    decreases n,
{
    if n > 0 {
        lemma_sums_nonneg(s, n - 1);
    }
}

/// Builds the dashboard from the queue lines: each total is exactly the sum
/// over the lines, clamped at the machine bound.
pub fn build_dashboard(queues: Vec<QueueInfo>) -> (r: DashboardTemplate)
    ensures
        r.queues == queues,
        r.messages@.len() == 0,
        r.total_queues == queues@.len(),
        r.total_available_messages == sat_usize(sum_available(queues@, queues@.len() as int)),
        r.total_in_flight_messages == sat_usize(sum_in_flight(queues@, queues@.len() as int)),
        r.total_messages == sat_usize(
            sum_available(queues@, queues@.len() as int) + sum_in_flight(
                queues@,
                queues@.len() as int,
            ),
        ),
{
    let n = queues.len();
    let mut avail: usize = 0;
    let mut inflight: usize = 0;
    let mut k: usize = 0;
    while k < n
        invariant
            n == queues@.len(),
            k <= n,
            avail == sat_usize(sum_available(queues@, k as int)),
            inflight == sat_usize(sum_in_flight(queues@, k as int)),
        decreases n - k,
    {
        proof {
            lemma_sums_nonneg(queues@, k as int);
            lemma_sums_nonneg(queues@, k + 1);
        }
        let a = queues[k].available_messages as usize;
        if avail > usize::MAX - a {
            avail = usize::MAX;
        } else {
            avail = avail + a;
        }
        let b = queues[k].in_flight_messages as usize;
        if inflight > usize::MAX - b {
            inflight = usize::MAX;
        } else {
            inflight = inflight + b;
        }
        k = k + 1;
    }
    proof {
        lemma_sums_nonneg(queues@, n as int);
    }
    let total: usize = if avail > usize::MAX - inflight {
        usize::MAX
    } else {
        avail + inflight
    };
    DashboardTemplate {
        total_queues: n,
        total_available_messages: avail,
        total_in_flight_messages: inflight,
        total_messages: total,
        queues,
        messages: Vec::new(),
    }
}

} // verus!
