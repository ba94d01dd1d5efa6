use vstd::prelude::*;

use crate::point::Point;
use crate::point::PointV;
use crate::tx::BlockHash;

verus! {

/// How many header points are buffered before one range block-fetch is
/// issued.
pub const BLOCKFETCH_CONCURRENCY: usize = 200;

/// Capacity of the bounded event channel between the pipeline and the
/// writer; the bound is the system's flow control.
pub const BUFFER_SIZE: usize = 5000;

/// How a run starts against the remote node: from the origin, or by
/// asking for an intersection at the persisted tip.
pub enum IntersectRequest {
    Origin,
    At(u64, BlockHash),
}

/// Decide the initial chain-sync request from the stored tip.
pub fn intersect_request(tip: Point) -> (r: IntersectRequest)
    ensures
        match tip@ {
            PointV::Origin => r is Origin,
            PointV::Specific(s, h) => match r {
                IntersectRequest::At(rs, rh) => rs == s && rh@ == h,
                IntersectRequest::Origin => false,
            },
        },
{
    match tip {
        Point::Origin => IntersectRequest::Origin,
        Point::Specific(s, h) => IntersectRequest::At(s, h),
    }
}

/// One range block-fetch to issue: the first and last buffered point,
/// and how many blocks the answer must hold.
pub struct FetchRequest {
    pub start_slot: u64,
    pub start_hash: BlockHash,
    pub end_slot: u64,
    pub end_hash: BlockHash,
    pub expected: usize,
}

/// The decision core of the chain-sync pipeline: it buffers header
/// points until a flush is due, and checks the length of what a fetch
/// returned. All network work stays with the caller.
pub struct Pipeline {
    pub pending_fetches: Vec<(u64, BlockHash)>,
}

impl Pipeline {
    /// An empty pipeline with nothing pending.
    pub fn new() -> (r: Self)
        ensures
            r.pending_fetches@.len() == 0,
    {
        Pipeline { pending_fetches: Vec::new() }
    }

    /// Take the pending points as one range fetch, oldest to newest;
    /// nothing pending asks for nothing.
    pub fn flush(&mut self) -> (r: Option<FetchRequest>)
        ensures
            final(self).pending_fetches@.len() == 0,
            match r {
                Some(req) => old(self).pending_fetches@.len() > 0 && (req.start_slot,
                req.start_hash@) == (old(self).pending_fetches@.first().0, old(
                    self,
                ).pending_fetches@.first().1@) && (req.end_slot, req.end_hash@) == (old(
                    self,
                ).pending_fetches@.last().0, old(self).pending_fetches@.last().1@) && req.expected
                    == old(self).pending_fetches@.len(),
                None => old(self).pending_fetches@.len() == 0,
            },
    {
        let n: usize = self.pending_fetches.len();
        if n == 0 {
            return None;
        }
        let start = &self.pending_fetches[0];
        let end = &self.pending_fetches[n - 1];
        let req = FetchRequest {
            start_slot: start.0,
            start_hash: start.1.clone(),
            end_slot: end.0,
            end_hash: end.1.clone(),
            expected: n,
        };
        self.pending_fetches = Vec::new();
        Some(req)
    }

    /// A header arrived: buffer its point; flush when the buffer reaches
    /// the concurrency bound or the header is already the remote tip.
    pub fn on_roll_forward(&mut self, slot: u64, hash: BlockHash, at_tip: bool) -> (r: Option<
        FetchRequest,
    >)
        requires
            old(self).pending_fetches@.len() < BLOCKFETCH_CONCURRENCY,
        ensures
            ({
                let buffered = old(self).pending_fetches@.push((slot, hash));
                if buffered.len() >= BLOCKFETCH_CONCURRENCY || at_tip {
                    final(self).pending_fetches@.len() == 0 && (match r {
                        Some(req) => (req.start_slot, req.start_hash@) == (
                            buffered.first().0,
                            buffered.first().1@,
                        ) && (req.end_slot, req.end_hash@) == (buffered.last().0, buffered.last().1@)
                            && req.expected == buffered.len(),
                        None => false,
                    })
                } else {
                    final(self).pending_fetches@ == buffered && r is None
                }
            }),
    {
        self.pending_fetches.push((slot, hash));
        if self.pending_fetches.len() >= BLOCKFETCH_CONCURRENCY || at_tip {
            self.flush()
        } else {
            None
        }
    }

    /// The remote rolled back: everything buffered must be fetched and
    /// emitted before the rollback event.
    pub fn on_roll_backward(&mut self) -> (r: Option<FetchRequest>)
        ensures
            final(self).pending_fetches@.len() == 0,
            r is Some <==> old(self).pending_fetches@.len() > 0,
    {
        self.flush()
    }

    /// The remote has nothing more right now: flush what is buffered.
    pub fn on_await(&mut self) -> (r: Option<FetchRequest>)
        ensures
            final(self).pending_fetches@.len() == 0,
            r is Some <==> old(self).pending_fetches@.len() > 0,
    {
        self.flush()
    }
}

/// Whether a decoded header is already the remote tip: the tip is a
/// specific point with exactly this slot and hash.
pub fn point_matches(tip: &Point, slot: u64, hash: &BlockHash) -> (r: bool)
    ensures
        r == (tip@ == PointV::Specific(slot, hash@)),
{
    match tip {
        Point::Origin => false,
        Point::Specific(ts, th) => *ts == slot && th.same(hash),
    }
}

/// Check the length of a finished range fetch against what was asked:
/// a mismatch is a data-integrity failure and fatal to the run.
pub fn check_fetched_len(expected: usize, got: usize) -> (r: bool)
    ensures
        r == (expected == got),
{
    expected == got
}

/// Whether the writer is near the remote tip: within a thousand slots.
pub open spec fn spec_at_tip(tip_slot: u64, block_slot: u64) -> bool {
    (if tip_slot >= 1000 {
        (tip_slot - 1000) as u64
    } else {
        0u64
    }) < block_slot
}

/// Decide whether the writer trims and persists after this block: near
/// the remote tip, or every ten-thousandth block number.
pub fn writer_should_persist(tip_slot: u64, block_slot: u64, block_number: u64) -> (r: bool)
    ensures
        r == (spec_at_tip(tip_slot, block_slot) || block_number % 10000 == 0),
{
    let base: u64 = if tip_slot >= 1000 {
        tip_slot - 1000
    } else {
        0
    };
    base < block_slot || block_number % 10000 == 0
}

} // verus!
