//! Bounded context store: a capacity-limited record of recent steps with
//! front-of-queue eviction, priority protection, and a soft flush threshold.

use vstd::prelude::*;
use vstd::string::StrSliceExecFns;

use crate::errors::MonitorError;
use crate::gas::spec_saturating_inc;
use crate::text::str_eq;

verus! {

/// Adding that stops at the top of `u64` instead of overflowing.
pub open spec fn spec_saturating_add(x: u64, y: u64) -> u64 {
    if x + y <= u64::MAX {
        (x + y) as u64
    } else {
        u64::MAX
    }
}

fn saturating_add64(x: u64, y: u64) -> (r: u64)
    ensures
        r == spec_saturating_add(x, y),
{
    if x <= u64::MAX - y {
        x + y
    } else {
        u64::MAX
    }
}

/// One recorded execution event.
#[derive(Debug, Clone, PartialEq)]
pub struct Frame {
    id: String,
    content: String,
    priority: u8,
    accessed: u64,
}

impl Frame {
    pub closed spec fn spec_id(self) -> Seq<char> {
        self.id@
    }

    pub closed spec fn spec_content(self) -> Seq<char> {
        self.content@
    }

    pub closed spec fn spec_priority(self) -> u8 {
        self.priority
    }

    pub closed spec fn spec_accessed(self) -> u64 {
        self.accessed
    }

    /// A frame with the lowest priority and no access stamp yet.
    pub fn new(id: &str, content: &str) -> (f: Frame)
        ensures
            f.spec_id() == id@,
            f.spec_content() == content@,
            f.spec_priority() == 0,
            f.spec_accessed() == 0,
    {
        Frame { id: id.to_owned(), content: content.to_owned(), priority: 0, accessed: 0 }
    }

    /// A frame with an explicit eviction priority.
    pub fn with_priority(id: &str, content: &str, priority: u8) -> (f: Frame)
        ensures
            f.spec_id() == id@,
            f.spec_content() == content@,
            f.spec_priority() == priority,
            f.spec_accessed() == 0,
    {
        Frame { id: id.to_owned(), content: content.to_owned(), priority, accessed: 0 }
    }

    /// The frame's identifier.
    pub fn id(&self) -> (r: &str)
        ensures
            r@ == self.spec_id(),
    {
        self.id.as_str()
    }

    /// The frame's recorded content.
    pub fn content(&self) -> (r: &str)
        ensures
            r@ == self.spec_content(),
    {
        self.content.as_str()
    }

    /// The frame's eviction priority.
    pub fn priority(&self) -> (r: u8)
        ensures
            r == self.spec_priority(),
    {
        self.priority
    }

    /// The frame's last access stamp.
    pub fn accessed(&self) -> (r: u64)
        ensures
            r == self.spec_accessed(),
    {
        self.accessed
    }

    /// Approximate memory footprint in bytes: both strings plus the two
    /// fixed-size fields, added without overflow.
    pub fn memory_size(&self) -> (r: usize)
        ensures
            r == spec_frame_size(*self),
    {
        let a = self.id.as_str().len();
        let b = self.content.as_str().len();
        let ab = if a <= usize::MAX - b {
            a + b
        } else {
            usize::MAX
        };
        if ab <= usize::MAX - 9 {
            ab + 9
        } else {
            usize::MAX
        }
    }

    /// An owned copy with identical fields.
    fn duplicate(&self) -> (f: Frame)
        ensures
            f == *self,
    {
        Frame {
            id: self.id.clone(),
            content: self.content.clone(),
            priority: self.priority,
            accessed: self.accessed,
        }
    }
}

/// The footprint `memory_size` reports for a frame.
pub closed spec fn spec_frame_size(f: Frame) -> usize {
    let a = vstd::utf8::encode_utf8(f.spec_id()).len() as usize;
    let b = vstd::utf8::encode_utf8(f.spec_content()).len() as usize;
    let ab = if a + b <= usize::MAX {
        (a + b) as usize
    } else {
        usize::MAX
    };
    if ab + 9 <= usize::MAX {
        (ab + 9) as usize
    } else {
        usize::MAX
    }
}

/// The position of the first frame carrying `id`, or -1 when none does.
pub open spec fn first_idx(s: Seq<Frame>, id: Seq<char>) -> int
    decreases s.len(),
{
    if s.len() == 0 {
        -1
    } else if s[0].spec_id() == id {
        0
    } else {
        let r = first_idx(s.drop_first(), id);
        if r < 0 {
            -1
        } else {
            r + 1
        }
    }
}

pub proof fn lemma_first_idx_none(s: Seq<Frame>, id: Seq<char>)
    requires
        forall|k: int| 0 <= k < s.len() ==> s[k].spec_id() != id,
    ensures
        first_idx(s, id) == -1,
    decreases s.len(),
{
    if s.len() > 0 {
        assert(forall|k: int|
            0 <= k < s.drop_first().len() ==> #[trigger] s.drop_first()[k] == s[k + 1]);
        lemma_first_idx_none(s.drop_first(), id);
    }
}

pub proof fn lemma_first_idx_at(s: Seq<Frame>, id: Seq<char>, i: int)
    requires
        0 <= i < s.len(),
        s[i].spec_id() == id,
        forall|k: int| 0 <= k < i ==> s[k].spec_id() != id,
    ensures
        first_idx(s, id) == i,
    decreases s.len(),
{
    if i > 0 {
        assert(forall|k: int|
            0 <= k < s.drop_first().len() ==> #[trigger] s.drop_first()[k] == s[k + 1]);
        lemma_first_idx_at(s.drop_first(), id, i - 1);
    }
}

/// A capacity-bounded store of frames in insertion order. The frame count
/// never exceeds the capacity, which is positive.
#[derive(Debug)]
pub struct ContextManager {
    capacity: usize,
    frames: Vec<Frame>,
    timestamp: u64,
    evicted_count: u64,
    flush_threshold_pct: u8,
}

impl ContextManager {
    /// Boundedness invariant: the store never outgrows its capacity.
    pub closed spec fn wf(self) -> bool {
        &&& self.capacity > 0
        &&& self.frames@.len() <= self.capacity
        &&& self.flush_threshold_pct <= 100
    }

    pub closed spec fn spec_frames(self) -> Seq<Frame> {
        self.frames@
    }

    pub closed spec fn spec_capacity(self) -> usize {
        self.capacity
    }

    pub closed spec fn spec_timestamp(self) -> u64 {
        self.timestamp
    }

    pub closed spec fn spec_evicted(self) -> u64 {
        self.evicted_count
    }

    pub closed spec fn spec_threshold_pct(self) -> u8 {
        self.flush_threshold_pct
    }

    /// An empty store with the given capacity and the default flush
    /// threshold of 80 percent.
    pub fn new(capacity: usize) -> (c: ContextManager)
        requires
            capacity > 0,
        ensures
            c.wf(),
            c.spec_capacity() == capacity,
            c.spec_frames() == Seq::<Frame>::empty(),
            c.spec_timestamp() == 0,
            c.spec_evicted() == 0,
            c.spec_threshold_pct() == 80,
    {
        ContextManager {
            capacity,
            frames: Vec::new(),
            timestamp: 0,
            evicted_count: 0,
            flush_threshold_pct: 80,
        }
    }

    /// An empty store with an explicit flush threshold, in whole percent.
    pub fn with_threshold(capacity: usize, flush_threshold_pct: u8) -> (c: ContextManager)
        requires
            capacity > 0,
            flush_threshold_pct <= 100,
        ensures
            c.wf(),
            c.spec_capacity() == capacity,
            c.spec_frames() == Seq::<Frame>::empty(),
            c.spec_timestamp() == 0,
            c.spec_evicted() == 0,
            c.spec_threshold_pct() == flush_threshold_pct,
    {
        ContextManager {
            capacity,
            frames: Vec::new(),
            timestamp: 0,
            evicted_count: 0,
            flush_threshold_pct,
        }
    }

    /// The maximum number of frames.
    pub fn capacity(&self) -> (r: usize)
        ensures
            r == self.spec_capacity(),
    {
        self.capacity
    }

    /// The current number of frames.
    pub fn len(&self) -> (r: usize)
        ensures
            r == self.spec_frames().len(),
    {
        self.frames.len()
    }

    /// Whether the store holds no frames.
    pub fn is_empty(&self) -> (r: bool)
        ensures
            r == (self.spec_frames().len() == 0),
    {
        self.frames.len() == 0
    }

    /// Whether the store is at capacity.
    pub fn is_full(&self) -> (r: bool)
        ensures
            r == (self.spec_frames().len() >= self.spec_capacity()),
    {
        self.frames.len() >= self.capacity
    }

    /// Occupancy as whole percent of capacity, rounded down.
    pub fn utilization_percent(&self) -> (r: u64)
        requires
            self.wf(),
        ensures
            r == (self.spec_frames().len() as int) * 100 / (self.spec_capacity() as int),
            r <= 100,
    {
        let n = self.frames.len() as u64;
        let c = self.capacity as u64;
        proof {
            assert((n as int) * 100 <= (c as int) * 100);
            assert((n as int) * 100 / (c as int) <= (c as int) * 100 / (c as int))
                by (nonlinear_arith)
                requires
                    (n as int) * 100 <= (c as int) * 100,
                    c > 0,
            ;
            assert((c as int) * 100 / (c as int) == 100) by (nonlinear_arith)
                requires
                    c > 0,
            ;
        }
        (n as u128 * 100 / c as u128) as u64
    }

    /// Total frames evicted over the store's lifetime.
    pub fn evicted_count(&self) -> (r: u64)
        ensures
            r == self.spec_evicted(),
    {
        self.evicted_count
    }

    /// Whether occupancy exceeds the flush threshold.
    pub fn should_flush(&self) -> (r: bool)
        requires
            self.wf(),
        ensures
            r == (self.spec_frames().len() * 100 > self.spec_threshold_pct()
                * self.spec_capacity()),
    {
        let n = self.frames.len() as u128;
        let t = self.flush_threshold_pct as u128;
        let c = self.capacity as u128;
        proof {
            assert((t as int) * (c as int) <= 100 * (usize::MAX as int)) by (nonlinear_arith)
                requires
                    t <= 100,
                    c <= usize::MAX,
            ;
        }
        n * 100 > t * c
    }

    /// Appends a frame, stamped with a fresh timestamp; when the store is
    /// full the oldest frame makes room first and is handed back.
    pub fn push(&mut self, frame: Frame) -> (evicted: Option<Frame>)
        requires
            old(self).wf(),
        ensures
            final(self).wf(),
            final(self).spec_capacity() == old(self).spec_capacity(),
            final(self).spec_threshold_pct() == old(self).spec_threshold_pct(),
            final(self).spec_timestamp() == spec_saturating_inc(old(self).spec_timestamp()),
            old(self).spec_frames().len() < old(self).spec_capacity() ==> {
                &&& final(self).spec_frames() == old(self).spec_frames().push(
                    spec_stamped(frame, final(self).spec_timestamp()),
                )
                &&& evicted is None
                &&& final(self).spec_evicted() == old(self).spec_evicted()
            },
            old(self).spec_frames().len() >= old(self).spec_capacity() ==> {
                &&& final(self).spec_frames() == old(self).spec_frames().drop_first().push(
                    spec_stamped(frame, final(self).spec_timestamp()),
                )
                &&& evicted == Some(old(self).spec_frames()[0])
                &&& final(self).spec_evicted() == spec_saturating_inc(old(self).spec_evicted())
            },
    {
        if self.timestamp < u64::MAX {
            self.timestamp = self.timestamp + 1;
        }
        let mut frame = frame;
        frame.accessed = self.timestamp;

        let evicted = if self.frames.len() >= self.capacity {
            self.evicted_count = saturating_add64(self.evicted_count, 1);
            let front = self.frames.remove(0);
            proof {
                assert(old(self).spec_frames().remove(0) =~= old(self).spec_frames().drop_first());
            }
            Some(front)
        } else {
            None
        };

        self.frames.push(frame);
        evicted
    }

    /// Looks a frame up by id and, on a hit, refreshes its access stamp;
    /// a copy of the refreshed frame comes back.
    pub fn get(&mut self, id: &str) -> (r: Option<Frame>)
        requires
            old(self).wf(),
        ensures
            final(self).wf(),
            final(self).spec_capacity() == old(self).spec_capacity(),
            final(self).spec_threshold_pct() == old(self).spec_threshold_pct(),
            final(self).spec_evicted() == old(self).spec_evicted(),
            final(self).spec_timestamp() == spec_saturating_inc(old(self).spec_timestamp()),
            ({
                let k = first_idx(old(self).spec_frames(), id@);
                if k < 0 {
                    r is None && final(self).spec_frames() == old(self).spec_frames()
                } else {
                    &&& final(self).spec_frames() == old(self).spec_frames().update(
                        k,
                        spec_stamped(old(self).spec_frames()[k], final(self).spec_timestamp()),
                    )
                    &&& r == Some(spec_stamped(
                        old(self).spec_frames()[k],
                        final(self).spec_timestamp(),
                    ))
                }
            }),
    {
        if self.timestamp < u64::MAX {
            self.timestamp = self.timestamp + 1;
        }
        let ts = self.timestamp;
        let ghost frames0 = self.frames@;

        let n = self.frames.len();
        let mut i: usize = 0;
        while i < n
            invariant
                n == self.frames@.len(),
                i <= n,
                self.frames@ == frames0,
                self.capacity == old(self).spec_capacity(),
                self.timestamp == ts,
                ts == spec_saturating_inc(old(self).spec_timestamp()),
                self.evicted_count == old(self).spec_evicted(),
                self.flush_threshold_pct == old(self).spec_threshold_pct(),
                old(self).wf(),
                frames0 == old(self).spec_frames(),
                forall|k: int| 0 <= k < i ==> self.frames@[k].spec_id() != id@,
            decreases n - i,
        {
            if str_eq(self.frames[i].id.as_str(), id) {
                proof {
                    lemma_first_idx_at(frames0, id@, i as int);
                }
                let mut f = self.frames[i].duplicate();
                f.accessed = ts;
                let copy = f.duplicate();
                self.frames.set(i, f);
                return Some(copy);
            }
            i = i + 1;
        }
        proof {
            lemma_first_idx_none(frames0, id@);
        }
        None
    }

    /// Looks a frame up by id without refreshing its stamp.
    pub fn peek(&self, id: &str) -> (r: Option<Frame>)
        ensures
            ({
                let k = first_idx(self.spec_frames(), id@);
                if k < 0 {
                    r is None
                } else {
                    r == Some(self.spec_frames()[k])
                }
            }),
    {
        let n = self.frames.len();
        let mut i: usize = 0;
        while i < n
            invariant
                n == self.frames@.len(),
                i <= n,
                forall|k: int| 0 <= k < i ==> self.frames@[k].spec_id() != id@,
            decreases n - i,
        {
            if str_eq(self.frames[i].id.as_str(), id) {
                proof {
                    lemma_first_idx_at(self.frames@, id@, i as int);
                }
                return Some(self.frames[i].duplicate());
            }
            i = i + 1;
        }
        proof {
            lemma_first_idx_none(self.frames@, id@);
        }
        None
    }

    /// Evicts up to `count` frames from the front, in insertion order, and
    /// reports how many actually left.
    pub fn flush(&mut self, count: usize) -> (r: usize)
        requires
            old(self).wf(),
        ensures
            final(self).wf(),
            final(self).spec_capacity() == old(self).spec_capacity(),
            final(self).spec_threshold_pct() == old(self).spec_threshold_pct(),
            final(self).spec_timestamp() == old(self).spec_timestamp(),
            r == spec_min_usize(count, old(self).spec_frames().len() as usize),
            final(self).spec_frames() == old(self).spec_frames().skip(r as int),
            final(self).spec_evicted() == spec_saturating_add(old(self).spec_evicted(), r as u64),
    {
        let actual = if count < self.frames.len() {
            count
        } else {
            self.frames.len()
        };
        let ghost frames0 = self.frames@;
        let mut k: usize = 0;
        while k < actual
            invariant
                actual <= frames0.len(),
                k <= actual,
                self.frames@ == frames0.skip(k as int),
                self.capacity == old(self).spec_capacity(),
                self.timestamp == old(self).spec_timestamp(),
                self.evicted_count == old(self).spec_evicted(),
                self.flush_threshold_pct == old(self).spec_threshold_pct(),
                old(self).wf(),
                frames0 == old(self).spec_frames(),
            decreases actual - k,
        {
            self.frames.remove(0);
            k = k + 1;
            proof {
                assert(frames0.skip(k - 1).drop_first() =~= frames0.skip(k as int));
            }
        }
        self.evicted_count = saturating_add64(self.evicted_count, actual as u64);
        actual
    }

    /// Evicts front frames until occupancy is at or below `target_pct`
    /// percent of capacity; reports how many left.
    pub fn flush_to_utilization(&mut self, target_pct: u8) -> (r: usize)
        requires
            old(self).wf(),
            target_pct <= 100,
        ensures
            final(self).wf(),
            final(self).spec_capacity() == old(self).spec_capacity(),
            final(self).spec_threshold_pct() == old(self).spec_threshold_pct(),
            ({
                let target_count = (old(self).spec_capacity() as int) * (target_pct as int) / 100;
                if old(self).spec_frames().len() <= target_count {
                    r == 0 && final(self).spec_frames() == old(self).spec_frames()
                        && final(self).spec_evicted() == old(self).spec_evicted()
                        && final(self).spec_timestamp() == old(self).spec_timestamp()
                } else {
                    &&& r == old(self).spec_frames().len() - target_count
                    &&& final(self).spec_frames() == old(self).spec_frames().skip(r as int)
                    &&& final(self).spec_evicted() == spec_saturating_add(
                        old(self).spec_evicted(),
                        r as u64,
                    )
                    &&& final(self).spec_timestamp() == old(self).spec_timestamp()
                }
            }),
    {
        proof {
            assert((self.capacity as int) * (target_pct as int) <= 100 * (usize::MAX as int))
                by (nonlinear_arith)
                requires
                    target_pct <= 100,
                    self.capacity <= usize::MAX,
            ;
            assert((self.capacity as int) * (target_pct as int) / 100 <= self.capacity as int)
                by (nonlinear_arith)
                requires
                    target_pct <= 100,
                    self.capacity >= 0,
            ;
        }
        let target_count = ((self.capacity as u128 * target_pct as u128 / 100) as usize);
        if self.frames.len() <= target_count {
            return 0;
        }
        let excess = self.frames.len() - target_count;
        self.flush(excess)
    }

    /// Evicts every frame whose priority falls below the threshold;
    /// reports how many left.
    pub fn flush_low_priority(&mut self, priority_threshold: u8) -> (r: usize)
        requires
            old(self).wf(),
        ensures
            final(self).wf(),
            final(self).spec_capacity() == old(self).spec_capacity(),
            final(self).spec_threshold_pct() == old(self).spec_threshold_pct(),
            final(self).spec_timestamp() == old(self).spec_timestamp(),
            final(self).spec_frames() == spec_kept_frames(
                old(self).spec_frames(),
                priority_threshold,
            ),
            r == old(self).spec_frames().len() - final(self).spec_frames().len(),
            final(self).spec_evicted() == spec_saturating_add(old(self).spec_evicted(), r as u64),
    {
        let n = self.frames.len();
        let mut kept: Vec<Frame> = Vec::new();
        let mut i: usize = 0;
        while i < n
            invariant
                n == self.frames@.len(),
                i <= n,
                kept@.len() <= i,
                kept@ == spec_kept_frames(self.frames@.take(i as int), priority_threshold),
                self.frames@ == old(self).spec_frames(),
                self.capacity == old(self).spec_capacity(),
                self.timestamp == old(self).spec_timestamp(),
                self.evicted_count == old(self).spec_evicted(),
                self.flush_threshold_pct == old(self).spec_threshold_pct(),
                old(self).wf(),
            decreases n - i,
        {
            let ghost prefix = self.frames@.take(i as int);
            if self.frames[i].priority >= priority_threshold {
                kept.push(self.frames[i].duplicate());
            }
            i = i + 1;
            proof {
                assert(self.frames@.take(i as int).drop_last() =~= prefix);
                assert(self.frames@.take(i as int).last() == self.frames@[i - 1]);
            }
        }
        proof {
            assert(self.frames@.take(n as int) =~= self.frames@);
        }
        let removed = n - kept.len();
        self.frames = kept;
        self.evicted_count = saturating_add64(self.evicted_count, removed as u64);
        removed
    }

    /// Removes every frame, counting them all as evicted.
    pub fn clear(&mut self)
        requires
            old(self).wf(),
        ensures
            final(self).wf(),
            final(self).spec_capacity() == old(self).spec_capacity(),
            final(self).spec_threshold_pct() == old(self).spec_threshold_pct(),
            final(self).spec_timestamp() == old(self).spec_timestamp(),
            final(self).spec_frames() == Seq::<Frame>::empty(),
            final(self).spec_evicted() == spec_saturating_add(
                old(self).spec_evicted(),
                old(self).spec_frames().len() as u64,
            ),
    {
        let n = self.frames.len();
        self.evicted_count = saturating_add64(self.evicted_count, n as u64);
        self.frames = Vec::new();
    }

    /// A copy of every frame, in insertion order.
    pub fn frames_snapshot(&self) -> (r: Vec<Frame>)
        ensures
            r@ == self.spec_frames(),
    {
        let n = self.frames.len();
        let mut r: Vec<Frame> = Vec::new();
        let mut i: usize = 0;
        while i < n
            invariant
                n == self.frames@.len(),
                i <= n,
                r@ == self.frames@.take(i as int),
            decreases n - i,
        {
            r.push(self.frames[i].duplicate());
            i = i + 1;
            proof {
                assert(self.frames@.take(i as int) =~= self.frames@.take(i - 1).push(
                    self.frames@[i - 1],
                ));
            }
        }
        proof {
            assert(self.frames@.take(n as int) =~= self.frames@);
        }
        r
    }

    /// Total approximate memory footprint of the stored frames.
    pub fn memory_usage(&self) -> (r: usize)
        ensures
            r == spec_memory_sum(self.spec_frames()),
    {
        let n = self.frames.len();
        let mut total: usize = 0;
        let mut i: usize = 0;
        while i < n
            invariant
                n == self.frames@.len(),
                i <= n,
                total == spec_memory_sum(self.frames@.take(i as int)),
            decreases n - i,
        {
            let sz = self.frames[i].memory_size();
            total = if total <= usize::MAX - sz {
                total + sz
            } else {
                usize::MAX
            };
            i = i + 1;
            proof {
                assert(self.frames@.take(i as int).drop_last() =~= self.frames@.take(i - 1));
            }
        }
        proof {
            assert(self.frames@.take(n as int) =~= self.frames@);
        }
        total
    }

    /// Confirms that the store's hard bound holds; the well-formed store
    /// always passes.
    pub fn validate_capacity(&self) -> (r: Result<(), MonitorError>)
        ensures
            r is Ok <==> self.spec_frames().len() <= self.spec_capacity(),
            self.wf() ==> r is Ok,
    {
        if self.frames.len() > self.capacity {
            Err(MonitorError::ContextOverflow {
                current: self.frames.len(),
                limit: self.capacity,
            })
        } else {
            Ok(())
        }
    }
}

/// Context boundedness: a well-formed store, as every constructor builds
/// and every operation keeps it, never holds more frames than its capacity.
pub proof fn lemma_context_bounded(c: ContextManager)
    requires
        c.wf(),
    ensures
        c.spec_frames().len() <= c.spec_capacity(),
{
}

/// The frame as it is stored: the same fields with a fresh access stamp.
pub closed spec fn spec_stamped(f: Frame, t: u64) -> Frame {
    Frame { accessed: t, ..f }
}

/// The smaller of two sizes.
pub open spec fn spec_min_usize(a: usize, b: usize) -> usize {
    if a < b {
        a
    } else {
        b
    }
}

/// The frames whose priority reaches the threshold, in their old order.
pub open spec fn spec_kept_frames(s: Seq<Frame>, t: u8) -> Seq<Frame>
    decreases s.len(),
{
    if s.len() == 0 {
        Seq::empty()
    } else if s.last().spec_priority() >= t {
        spec_kept_frames(s.drop_last(), t).push(s.last())
    } else {
        spec_kept_frames(s.drop_last(), t)
    }
}

/// The saturating sum of the frames' footprints, front to back.
pub closed spec fn spec_memory_sum(s: Seq<Frame>) -> usize
    decreases s.len(),
{
    if s.len() == 0 {
        0usize
    } else {
        let rest = spec_memory_sum(s.drop_last());
        if rest + spec_frame_size(s.last()) <= usize::MAX {
            (rest + spec_frame_size(s.last())) as usize
        } else {
            usize::MAX
        }
    }
}

} // verus!

