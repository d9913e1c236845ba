//! The price feed's plain values: subscription batches, price updates and
//! the feed's address.

use vstd::prelude::*;
use crate::decimal::Dec;
use crate::text::{chars_of, string_of};

verus! {

/// Asset ids per subscription message.
pub const SUBSCRIPTION_BATCH_SIZE: usize = 50;

/// The feed's address when none is configured.
pub const DEFAULT_WS_URL: &'static str = "wss://ws-subscriptions-clob.polymarket.com/ws/market";

/// A request to receive price updates for some assets.
#[derive(Debug, Clone)]
pub struct SubscriptionMessage {
    /// Always `subscribe`.
    pub message_type: String,
    /// Always `prices`.
    pub topic: String,
    pub asset_ids: Vec<String>,
}

/// One price update of the feed.
#[derive(Debug, Clone)]
pub struct PriceUpdate {
    pub asset_id: String,
    pub price: Dec,
}

pub struct ClobClient {
    pub ws_url: String,
}

/// First wait before reconnecting, in seconds.
pub const INITIAL_RECONNECT_DELAY: u64 = 2;

/// Longest wait before reconnecting, in seconds.
pub const MAX_RECONNECT_DELAY: u64 = 60;

/// What the feed's connection reported.
#[derive(Debug, Clone, Copy, PartialEq, Eq, Structural)]
pub enum FeedEvent {
    /// A text message that reads as a price update.
    Update,
    /// A text message that does not.
    Unreadable,
    Ping,
    /// The server closed the connection, or it ended.
    Closed,
    /// The connection failed.
    Failed,
    /// Any other message.
    Other,
    /// Nothing arrived for a heartbeat interval.
    Quiet,
}

/// What to do about a feed event.
#[derive(Debug, Clone, Copy, PartialEq, Eq, Structural)]
pub enum FeedAction {
    /// Hand the update to the pipeline.
    Deliver,
    /// Answer with a pong carrying the ping's payload.
    Pong,
    /// Send a heartbeat ping.
    SendPing,
    /// End the stream with an error.
    Stop,
    Ignore,
}

pub open spec fn action_for(e: FeedEvent) -> FeedAction {
    match e {
        FeedEvent::Update => FeedAction::Deliver,
        FeedEvent::Ping => FeedAction::Pong,
        FeedEvent::Quiet => FeedAction::SendPing,
        FeedEvent::Closed => FeedAction::Stop,
        FeedEvent::Failed => FeedAction::Stop,
        FeedEvent::Unreadable => FeedAction::Ignore,
        FeedEvent::Other => FeedAction::Ignore,
    }
}

/// The response to one feed event.
pub fn feed_action(e: FeedEvent) -> (r: FeedAction)
    ensures
        r == action_for(e),
{
    match e {
        FeedEvent::Update => FeedAction::Deliver,
        FeedEvent::Ping => FeedAction::Pong,
        FeedEvent::Quiet => FeedAction::SendPing,
        FeedEvent::Closed => FeedAction::Stop,
        FeedEvent::Failed => FeedAction::Stop,
        FeedEvent::Unreadable => FeedAction::Ignore,
        FeedEvent::Other => FeedAction::Ignore,
    }
}

/// The wait before the next connection: back to the first wait after a
/// stream that ended normally, doubled up to the longest wait after a failure.
pub fn next_reconnect_delay(current: u64, failed: bool) -> (r: u64)
    ensures
        !failed ==> r == INITIAL_RECONNECT_DELAY,
        failed ==> r == (if 2 * current <= MAX_RECONNECT_DELAY { 2 * current } else { MAX_RECONNECT_DELAY as int }),
{
    if !failed {
        INITIAL_RECONNECT_DELAY
    } else if current <= MAX_RECONNECT_DELAY / 2 {
        current * 2
    } else {
        MAX_RECONNECT_DELAY
    }
}

/// The ids of batch `k`: up to `SUBSCRIPTION_BATCH_SIZE` consecutive ids.
pub open spec fn batch_ids(ids: Seq<Seq<char>>, k: int) -> Seq<Seq<char>> {
    let start = k * SUBSCRIPTION_BATCH_SIZE;
    let end = if start + SUBSCRIPTION_BATCH_SIZE <= ids.len() {
        start + SUBSCRIPTION_BATCH_SIZE
    } else {
        ids.len() as int
    };
    ids.subrange(start, end)
}

pub open spec fn id_views(v: Seq<String>) -> Seq<Seq<char>> {
    v.map_values(|s: String| s@)
}

impl ClobClient {
    /// A client for the configured address, or for the default one.
    pub fn new(configured_url: Option<String>) -> (r: ClobClient)
        ensures
            configured_url matches Some(u) ==> r.ws_url@ == u@,
            configured_url is None ==> r.ws_url@ == DEFAULT_WS_URL@,
    {
        match configured_url {
            Some(u) => ClobClient { ws_url: u },
            None => ClobClient { ws_url: string_of(&chars_of(DEFAULT_WS_URL)) },
        }
    }

    /// The subscription messages for these assets, in batches of
    /// `SUBSCRIPTION_BATCH_SIZE` ids, in order.
    pub fn subscription_batches(asset_ids: &Vec<String>) -> (r: Vec<SubscriptionMessage>)
        ensures
            r.len() == (asset_ids.len() + SUBSCRIPTION_BATCH_SIZE - 1) / (SUBSCRIPTION_BATCH_SIZE as int),
            forall|k: int|
                0 <= k < r.len() ==> {
                    &&& (#[trigger] r@[k]).message_type@ == "subscribe"@
                    &&& r@[k].topic@ == "prices"@
                    &&& id_views(r@[k].asset_ids@) == batch_ids(id_views(asset_ids@), k)
                },
    {
        let n = asset_ids.len();
        let mut out: Vec<SubscriptionMessage> = Vec::new();
        let mut start: usize = 0;
        let ghost all = id_views(asset_ids@);
        while start < n
            invariant
                start <= n == asset_ids.len(),
                all == id_views(asset_ids@),
                start <= out.len() * SUBSCRIPTION_BATCH_SIZE < start + SUBSCRIPTION_BATCH_SIZE,
                start < n ==> start == out.len() * SUBSCRIPTION_BATCH_SIZE,
                forall|k: int|
                    0 <= k < out.len() ==> {
                        &&& (#[trigger] out@[k]).message_type@ == "subscribe"@
                        &&& out@[k].topic@ == "prices"@
                        &&& id_views(out@[k].asset_ids@) == batch_ids(all, k)
                    },
            decreases n - start,
        {
            let end = if n - start >= SUBSCRIPTION_BATCH_SIZE {
                start + SUBSCRIPTION_BATCH_SIZE
            } else {
                n
            };
            let mut ids: Vec<String> = Vec::new();
            let mut j = start;
            while j < end
                invariant
                    start <= j <= end <= n == asset_ids.len(),
                    all == id_views(asset_ids@),
                    id_views(ids@) == all.subrange(start as int, j as int),
                decreases end - j,
            {
                let ghost before = ids@;
                ids.push(asset_ids[j].clone());
                assert(id_views(ids@) =~= id_views(before).push(all[j as int]));
                j = j + 1;
                assert(all.subrange(start as int, j as int) =~= all.subrange(start as int, j - 1).push(all[j - 1]));
            }
            let ghost before = out@;
            out.push(
                SubscriptionMessage {
                    message_type: string_of(&chars_of("subscribe")),
                    topic: string_of(&chars_of("prices")),
                    asset_ids: ids,
                },
            );
            assert forall|k: int| 0 <= k < out.len() implies {
                &&& (#[trigger] out@[k]).message_type@ == "subscribe"@
                &&& out@[k].topic@ == "prices"@
                &&& id_views(out@[k].asset_ids@) == batch_ids(all, k)
            } by {
                if k < before.len() {
                    assert(out@[k] == before[k]);
                }
            }
            start = end;
        }
        assert(out.len() == (n + SUBSCRIPTION_BATCH_SIZE - 1) / (SUBSCRIPTION_BATCH_SIZE as int)) by (nonlinear_arith)
            requires
                out.len() * SUBSCRIPTION_BATCH_SIZE >= n,
                out.len() * SUBSCRIPTION_BATCH_SIZE < n + SUBSCRIPTION_BATCH_SIZE,
                SUBSCRIPTION_BATCH_SIZE == 50,
        ;
        out
    }
}

} // verus!
