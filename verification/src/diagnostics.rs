//! Numbers for the log: shared textures, video memory, copy times, and the
//! output that the window is on.

use vstd::prelude::*;
use crate::devices::CompositorDevices;
use crate::protocol::Handle;
use crate::status::{hresult_is_err, win32_bool};

verus! {

/// How many shared textures are remembered.
pub const RECENT_HANDLES: usize = 8;

/// Every so many frames there is a periodic report.
pub const PERIODIC_FRAMES: u64 = 200;

/// Counts of the frames that came as shared textures, and of the textures that
/// were not among the last few when they came.
pub struct AccelPaintDiag {
    pub(crate) frame_count: u64,
    pub(crate) distinct_count: u64,
    /// The textures remembered, oldest first.
    pub(crate) recent_handles: Vec<u64>,
    /// `distinct_count` at the last periodic report.
    pub(crate) last_periodic_distinct_count: u64,
    /// When that was, in nanoseconds on the host's clock.
    pub(crate) last_periodic_at: Option<u64>,
}

/// The counts, mathematically.
#[verifier::ext_equal]
pub struct DiagModel {
    pub frame_count: int,
    pub distinct_count: int,
    pub recent: Seq<u64>,
    pub last_periodic_distinct_count: int,
    pub last_periodic_at: Option<u64>,
}

impl View for AccelPaintDiag {
    type V = DiagModel;

    open(crate) spec fn view(&self) -> DiagModel {
        DiagModel {
            frame_count: self.frame_count as int,
            distinct_count: self.distinct_count as int,
            recent: self.recent_handles@,
            last_periodic_distinct_count: self.last_periodic_distinct_count as int,
            last_periodic_at: self.last_periodic_at,
        }
    }
}

/// What a periodic report says: the textures that were new since the last one,
/// and the time that has passed since, if there was a last one.
#[derive(Clone, Copy, Debug, PartialEq, Eq)]
pub struct Growth {
    pub new_handles: u64,
    pub elapsed: u64,
}

/// What is to be logged of a frame.
#[derive(Clone, Copy, Debug, PartialEq, Eq)]
pub struct AccelPaintReport {
    pub frame_count: u64,
    pub distinct_count: u64,
    pub is_new: bool,
    pub periodic: bool,
    /// Whether the frame gets a line of its own.
    pub logged: bool,
    pub growth: Option<Growth>,
}

impl DiagModel {
    pub open spec fn initial() -> DiagModel {
        DiagModel {
            frame_count: 0,
            distinct_count: 0,
            recent: Seq::empty(),
            last_periodic_distinct_count: 0,
            last_periodic_at: None,
        }
    }

    /// No texture is remembered twice, not too many are, and there are no more
    /// textures than frames.
    pub open spec fn wf(self) -> bool {
        &&& self.recent.no_duplicates()
        &&& self.recent.len() <= RECENT_HANDLES
        &&& self.recent.len() <= self.distinct_count
        &&& self.last_periodic_distinct_count <= self.distinct_count <= self.frame_count
    }

    pub open spec fn is_new(self, handle: u64) -> bool {
        !self.recent.contains(handle)
    }

    /// The textures remembered once `handle` has come: a new one drives out the
    /// oldest if there is no room.
    pub open spec fn remembering(self, handle: u64) -> Seq<u64> {
        if self.recent.contains(handle) {
            self.recent
        } else if self.recent.len() < RECENT_HANDLES {
            self.recent.push(handle)
        } else {
            self.recent.drop_first().push(handle)
        }
    }

    /// Whether the next frame brings a periodic report.
    pub open spec fn periodic(self) -> bool {
        (self.frame_count + 1) % (PERIODIC_FRAMES as int) == 0
    }

    /// The counts once a frame has come.
    pub open spec fn counted(self, handle: u64, now: u64) -> DiagModel {
        let distinct_count = if self.is_new(handle) {
            self.distinct_count + 1
        } else {
            self.distinct_count
        };
        DiagModel {
            frame_count: self.frame_count + 1,
            distinct_count,
            recent: self.remembering(handle),
            last_periodic_distinct_count: if self.periodic() {
                distinct_count
            } else {
                self.last_periodic_distinct_count
            },
            last_periodic_at: if self.periodic() {
                Some(now)
            } else {
                self.last_periodic_at
            },
        }
    }

    /// The time since the last periodic report, if there was one; a clock that
    /// went back counts as standing still.
    pub open spec fn elapsed(self, now: u64) -> int {
        if self.last_periodic_at is Some && now > self.last_periodic_at->0 {
            now - self.last_periodic_at->0
        } else {
            0
        }
    }
}

/// Whether a report says what there is to say of a frame.
pub open spec fn reports(m: DiagModel, handle: u64, now: u64, r: AccelPaintReport) -> bool {
    let n = m.counted(handle, now);
    &&& r.frame_count == n.frame_count
    &&& r.distinct_count == n.distinct_count
    &&& r.is_new == m.is_new(handle)
    &&& r.periodic == m.periodic()
    &&& r.logged == (m.is_new(handle) || m.periodic())
    &&& match r.growth {
        Some(g) => {
            &&& m.periodic() && m.last_periodic_at is Some
            &&& g.new_handles == n.distinct_count - m.last_periodic_distinct_count
            &&& g.elapsed == m.elapsed(now)
        },
        None => !m.periodic() || m.last_periodic_at is None,
    }
}

impl AccelPaintDiag {
    pub fn new() -> (r: AccelPaintDiag)
        ensures
            r@ == DiagModel::initial(),
            r@.wf(),
    {
        let r = AccelPaintDiag {
            frame_count: 0,
            distinct_count: 0,
            recent_handles: Vec::new(),
            last_periodic_distinct_count: 0,
            last_periodic_at: None,
        };
        assert(r@ =~= DiagModel::initial());
        r
    }

    pub fn frame_count(&self) -> (r: u64)
        ensures
            r == self@.frame_count,
    {
        self.frame_count
    }

    pub fn distinct_count(&self) -> (r: u64)
        ensures
            r == self@.distinct_count,
    {
        self.distinct_count
    }

    /// The textures remembered, oldest first.
    pub fn recent_handles(&self) -> (r: &Vec<u64>)
        ensures
            r@ == self@.recent,
    {
        &self.recent_handles
    }

    fn has_recent(&self, handle: u64) -> (r: bool)
        ensures
            r == self@.recent.contains(handle),
    {
        let mut i: usize = 0;
        while i < self.recent_handles.len()
            invariant
                i <= self.recent_handles.len(),
                forall|k: int| 0 <= k < i ==> self@.recent[k] != handle,
            decreases self.recent_handles.len() - i,
        {
            if self.recent_handles[i] == handle {
                assert(self@.recent[i as int] == handle);
                return true;
            }
            i = i + 1;
        }
        false
    }

    /// Counts a frame that came as the shared texture `handle`.
    pub fn log_accel_paint_diag(&mut self, handle: u64, now: u64) -> (r: AccelPaintReport)
        requires
            old(self)@.wf(),
            old(self)@.frame_count < u64::MAX,
        ensures
            final(self)@ == old(self)@.counted(handle, now),
            final(self)@.wf(),
            reports(old(self)@, handle, now, r),
    {
        let ghost m = self@;
        self.frame_count = self.frame_count + 1;
        let is_new = !self.has_recent(handle);
        if is_new {
            self.distinct_count = self.distinct_count + 1;
            self.recent_handles.push(handle);
            if self.recent_handles.len() > RECENT_HANDLES {
                self.recent_handles.remove(0);
                assert(self.recent_handles@ =~= m.recent.drop_first().push(handle));
            }
        }
        assert(self.recent_handles@ == m.remembering(handle));
        assert(m.remembering(handle).no_duplicates()) by {
            lemma_remembering(m, handle);
        }
        let periodic = self.frame_count % PERIODIC_FRAMES == 0;
        let mut growth: Option<Growth> = None;
        if periodic {
            if let Some(before) = self.last_periodic_at {
                let elapsed: u64 = if now > before {
                    now - before
                } else {
                    0
                };
                growth = Some(
                    Growth {
                        new_handles: self.distinct_count - self.last_periodic_distinct_count,
                        elapsed,
                    },
                );
            }
            self.last_periodic_distinct_count = self.distinct_count;
            self.last_periodic_at = Some(now);
        }
        assert(self@ =~= m.counted(handle, now));
        AccelPaintReport {
            frame_count: self.frame_count,
            distinct_count: self.distinct_count,
            is_new,
            periodic,
            logged: is_new || periodic,
            growth,
        }
    }
}

proof fn lemma_remembering(m: DiagModel, handle: u64)
    requires
        m.wf(),
    ensures
        m.remembering(handle).no_duplicates(),
        m.remembering(handle).contains(handle),
{
    let r = m.remembering(handle);
    if !m.recent.contains(handle) {
        assert(r[r.len() - 1] == handle);
        assert forall|i: int, j: int|
            0 <= i < r.len() && 0 <= j < r.len() && i != j implies r[i] != r[j] by {
            let by: int = if m.recent.len() < RECENT_HANDLES {
                0
            } else {
                1
            };
            if i < r.len() - 1 {
                assert(m.recent.contains(m.recent[i + by]));
            }
            if j < r.len() - 1 {
                assert(m.recent.contains(m.recent[j + by]));
            }
        }
    }
}

/// The counts once a row of frames has come: each frame is its texture and the
/// time it came.
pub open spec fn counted_all(m: DiagModel, frames: Seq<(u64, u64)>) -> DiagModel
    decreases frames.len(),
{
    if frames.len() == 0 {
        m
    } else {
        counted_all(m, frames.drop_last()).counted(frames.last().0, frames.last().1)
    }
}

/// The textures that occur in a row of frames.
pub open spec fn textures(frames: Seq<(u64, u64)>) -> Set<u64> {
    frames.map_values(|frame: (u64, u64)| frame.0).to_set()
}

proof fn lemma_textures(frames: Seq<(u64, u64)>)
    ensures
        frames.len() == 0 ==> textures(frames) == Set::<u64>::empty(),
        frames.len() > 0 ==> textures(frames) == textures(frames.drop_last()).insert(
            frames.last().0,
        ),
{
    let all = frames.map_values(|frame: (u64, u64)| frame.0);
    if frames.len() == 0 {
        assert(textures(frames) =~= Set::<u64>::empty());
    } else {
        let front = frames.drop_last().map_values(|frame: (u64, u64)| frame.0);
        let last = frames.last().0;
        assert(all =~= front.push(last));
        assert forall|h: u64| #[trigger] all.contains(h) <==> front.contains(h) || h == last by {
            if front.contains(h) {
                let k = choose|k: int| 0 <= k < front.len() && front[k] == h;
                assert(all[k] == h);
            }
            assert(all[front.len() as int] == last);
        }
        assert(textures(frames) =~= textures(frames.drop_last()).insert(last));
    }
}

proof fn lemma_no_duplicates_len(s: Seq<u64>, t: Set<u64>)
    requires
        s.no_duplicates(),
        forall|h: u64| s.contains(h) <==> #[trigger] t.contains(h),
    ensures
        t.finite(),
        s.len() == t.len(),
{
    s.unique_seq_to_set();
    assert(s.to_set() =~= t);
}

proof fn lemma_counted_all(frames: Seq<(u64, u64)>)
    ensures
        ({
            let n = counted_all(DiagModel::initial(), frames);
            let t = textures(frames);
            &&& n.wf()
            &&& n.frame_count == frames.len()
            &&& t.finite()
            &&& t.len() <= n.distinct_count <= frames.len()
            &&& t.len() <= frames.len()
            &&& forall|h: u64| #[trigger] n.recent.contains(h) ==> t.contains(h)
            &&& t.len() <= RECENT_HANDLES ==> n.distinct_count == t.len() && forall|h: u64|
                n.recent.contains(h) <==> #[trigger] t.contains(h)
        }),
    decreases frames.len(),
{
    lemma_textures(frames);
    if frames.len() > 0 {
        let front = frames.drop_last();
        let (handle, now) = frames.last();
        lemma_counted_all(front);
        let m = counted_all(DiagModel::initial(), front);
        let n = m.counted(handle, now);
        let before = textures(front);
        let t = before.insert(handle);
        lemma_remembering(m, handle);
        assert(!before.contains(handle) ==> m.is_new(handle));
        assert forall|h: u64| #[trigger] n.recent.contains(h) implies t.contains(h) by {
            let k = choose|k: int| 0 <= k < n.recent.len() && n.recent[k] == h;
            if !m.recent.contains(handle) && k < n.recent.len() - 1 {
                let by: int = if m.recent.len() < RECENT_HANDLES {
                    0
                } else {
                    1
                };
                assert(m.recent[k + by] == h);
                assert(m.recent.contains(h));
            }
        }
        if t.len() <= RECENT_HANDLES {
            lemma_no_duplicates_len(m.recent, before);
            assert forall|h: u64| #[trigger] t.contains(h) implies n.recent.contains(h) by {
                if h != handle {
                    assert(before.contains(h));
                    assert(m.recent.contains(h));
                    let k = choose|k: int| 0 <= k < m.recent.len() && m.recent[k] == h;
                    assert(n.recent[k] == h);
                }
            }
        }
    }
}

/// What the count of new textures tells of where they come from, over any row
/// of frames from the start on. A sender that takes turns with a pool no larger
/// than what is remembered has each texture counted once, however many frames
/// there are: the count stops growing. A sender that never uses a texture again
/// has the count grow with every frame. In between, the count is at least the
/// number of textures and at most the number of frames.
pub proof fn lemma_distinct_count(frames: Seq<(u64, u64)>)
    ensures
        ({
            let n = counted_all(DiagModel::initial(), frames);
            let k = textures(frames).len();
            let m = frames.len();
            &&& n.frame_count == m
            &&& k <= n.distinct_count <= m
            &&& k <= RECENT_HANDLES ==> n.distinct_count == k
            &&& k == m ==> n.distinct_count == n.frame_count && n.distinct_count == m
        }),
{
    lemma_counted_all(frames);
}

/// A texture that is remembered is not counted again.
pub proof fn lemma_remembered_handle_is_not_new(m: DiagModel, handle: u64, now: u64)
    requires
        m.wf(),
    ensures
        m.counted(handle, now).recent.contains(handle),
        m.recent.contains(handle) ==> m.counted(handle, now).distinct_count == m.distinct_count
            && m.counted(handle, now).recent == m.recent,
{
    lemma_remembering(m, handle);
}

/// Bytes in a megabyte.
pub const MEGABYTE: u64 = 1048576;

/// What the adapter reports of its video memory, in bytes.
#[derive(Clone, Copy, Debug, PartialEq, Eq)]
pub struct VideoMemory {
    pub current_usage: u64,
    pub budget: u64,
    pub current_reservation: u64,
    pub available_for_reservation: u64,
}

/// The same in whole megabytes.
#[derive(Clone, Copy, Debug, PartialEq, Eq)]
pub struct VideoMemoryMb {
    pub usage_mb: u64,
    pub budget_mb: u64,
    pub reservation_mb: u64,
    pub available_for_reservation_mb: u64,
}

/// The adapter to ask about video memory, if it can be asked.
pub fn vram_adapter(devices: &CompositorDevices) -> (r: Option<Handle>)
    ensures
        r == devices.adapter3,
{
    devices.adapter3
}

/// Bytes as whole megabytes.
pub open spec fn in_megabytes(info: VideoMemory) -> VideoMemoryMb {
    VideoMemoryMb {
        usage_mb: info.current_usage / MEGABYTE,
        budget_mb: info.budget / MEGABYTE,
        reservation_mb: info.current_reservation / MEGABYTE,
        available_for_reservation_mb: info.available_for_reservation / MEGABYTE,
    }
}

/// Each number of megabytes is the largest that is not more than the bytes that
/// it stands for.
pub proof fn lemma_megabytes(info: VideoMemory)
    ensures
        ({
            let mb = in_megabytes(info);
            &&& mb.usage_mb * 1048576 <= info.current_usage < (mb.usage_mb + 1) * 1048576
            &&& mb.budget_mb * 1048576 <= info.budget < (mb.budget_mb + 1) * 1048576
            &&& mb.reservation_mb * 1048576 <= info.current_reservation < (mb.reservation_mb + 1)
                * 1048576
            &&& mb.available_for_reservation_mb * 1048576 <= info.available_for_reservation < (
            mb.available_for_reservation_mb + 1) * 1048576
        }),
{
}

/// What to log of the video memory, if the query succeeded.
pub fn log_vram_usage(status: i32, info: VideoMemory) -> (r: Option<VideoMemoryMb>)
    ensures
        r is Some <==> status >= 0,
        r matches Some(mb) ==> mb.usage_mb == info.current_usage / MEGABYTE && mb.budget_mb
            == info.budget / MEGABYTE && mb.reservation_mb == info.current_reservation / MEGABYTE
            && mb.available_for_reservation_mb == info.available_for_reservation / MEGABYTE,
        r matches Some(mb) ==> mb == in_megabytes(info),
{
    if hresult_is_err(status) {
        return None;
    }
    Some(
        VideoMemoryMb {
            usage_mb: info.current_usage / MEGABYTE,
            budget_mb: info.budget / MEGABYTE,
            reservation_mb: info.current_reservation / MEGABYTE,
            available_for_reservation_mb: info.available_for_reservation / MEGABYTE,
        },
    )
}

/// A copy is given up on after 200 milliseconds.
pub const COPY_TIMEOUT_NS: u64 = 200000000;

/// A copy that took longer than a millisecond is logged.
pub const SLOW_COPY_NS: u64 = 1000000;

/// What to do about a copy that was waited for.
#[derive(Clone, Copy, Debug, PartialEq, Eq)]
pub enum CopyWait {
    Finished,
    TimedOut,
    Again,
}

/// What follows from one look at a copy: `done` is what the query filled in.
pub open spec fn copy_wait(done: i32, elapsed: u64) -> CopyWait {
    if done != 0 {
        CopyWait::Finished
    } else if elapsed > COPY_TIMEOUT_NS {
        CopyWait::TimedOut
    } else {
        CopyWait::Again
    }
}

/// One look at a copy, `elapsed` nanoseconds after the wait began.
pub fn wait_for_copy_completion(done: i32, elapsed: u64) -> (r: CopyWait)
    ensures
        r == copy_wait(done, elapsed),
{
    if done != 0 {
        CopyWait::Finished
    } else if elapsed > COPY_TIMEOUT_NS {
        CopyWait::TimedOut
    } else {
        CopyWait::Again
    }
}

/// Whether a wait is worth a line in the log.
pub fn copy_was_slow(waited: u64) -> (r: bool)
    ensures
        r == (waited > SLOW_COPY_NS),
{
    waited > SLOW_COPY_NS
}

/// No copy is waited for any longer once the time is up.
pub proof fn lemma_copy_wait_is_bounded(done: i32, elapsed: u64)
    requires
        elapsed > COPY_TIMEOUT_NS,
    ensures
        !(copy_wait(done, elapsed) is Again),
{
}

/// Width, height and refresh rate of a display, if they could be read: `ok` is
/// the `BOOL` that the call returned.
pub fn read_actual_output_mode(ok: i32, width: u32, height: u32, frequency: u32) -> (r: Option<
    (u32, u32, u32),
>)
    ensures
        r == (if ok != 0 {
            Some((width, height, frequency))
        } else {
            None
        }),
{
    if win32_bool(ok) {
        Some((width, height, frequency))
    } else {
        None
    }
}

/// The numbers that are reported by.
pub proof fn lemma_units()
    ensures
        MEGABYTE == 1024 * 1024,
        COPY_TIMEOUT_NS == 200 * 1000 * 1000,
        SLOW_COPY_NS == 1000 * 1000,
        RECENT_HANDLES == 8,
        PERIODIC_FRAMES == 200,
{
}

/// A copy is finished as soon as the query says so, however late; otherwise it
/// is given up on once more than 200 milliseconds have passed, and looked at
/// again before.
pub proof fn lemma_copy_wait(done: i32, elapsed: u64)
    ensures
        copy_wait(done, elapsed) is Finished <==> done != 0,
        copy_wait(done, elapsed) is TimedOut <==> done == 0 && elapsed > 200000000,
        copy_wait(done, elapsed) is Again <==> done == 0 && elapsed <= 200000000,
{
}

/// The last eight textures that were new are remembered, in the order in which
/// they came; one that comes again while it is remembered changes nothing.
pub proof fn lemma_recent(m: DiagModel, handle: u64, now: u64)
    requires
        m.wf(),
    ensures
        ({
            let n = m.counted(handle, now);
            &&& n.frame_count == m.frame_count + 1
            &&& if m.recent.contains(handle) {
                n.recent == m.recent && n.distinct_count == m.distinct_count
            } else {
                &&& n.distinct_count == m.distinct_count + 1
                &&& n.recent.last() == handle
                &&& n.recent.drop_last() == (if m.recent.len() < 8 {
                    m.recent
                } else {
                    m.recent.skip(1)
                })
            }
        }),
{
    let n = m.counted(handle, now);
    if !m.recent.contains(handle) {
        if m.recent.len() < 8 {
            assert(n.recent.drop_last() =~= m.recent);
        } else {
            assert(n.recent.drop_last() =~= m.recent.skip(1));
        }
    }
}

/// How many frames there were at the last periodic report.
pub open spec fn reported_at(n: int) -> int {
    n / 200 * 200
}

proof fn lemma_reported_at(n: int)
    requires
        n >= 0,
    ensures
        n > 0 && n % 200 == 0 ==> reported_at(n) == n,
        n > 0 && n % 200 != 0 ==> reported_at(n) == reported_at(n - 1),
        0 <= reported_at(n) <= n,
{
}

/// Every two hundredth frame brings a periodic report, and no other does. What
/// is remembered of the last one is when its frame came, and how many textures
/// had been new by then.
pub proof fn lemma_periodic(frames: Seq<(u64, u64)>)
    ensures
        ({
            let n = counted_all(DiagModel::initial(), frames);
            let k = reported_at(frames.len() as int);
            &&& n.frame_count == frames.len()
            &&& n.periodic() <==> (frames.len() + 1) % 200 == 0
            &&& n.last_periodic_at == (if frames.len() < 200 {
                None
            } else {
                Some(frames[k - 1].1)
            })
            &&& n.last_periodic_distinct_count == counted_all(
                DiagModel::initial(),
                frames.take(k),
            ).distinct_count
        }),
    decreases frames.len(),
{
    let len = frames.len() as int;
    let k = reported_at(len);
    lemma_reported_at(len);
    if len > 0 {
        let front = frames.drop_last();
        lemma_periodic(front);
        lemma_reported_at(len - 1);
        if len % 200 == 0 {
            assert(frames.take(k) =~= frames);
            assert(frames.last() == frames[k - 1]);
        } else {
            assert(frames.take(k) =~= front.take(k));
            if len >= 200 {
                assert(k > 0);
                assert(front[k - 1] == frames[k - 1]);
            }
        }
    } else {
        assert(frames.take(k) =~= frames);
    }
}

/// What a report says of a frame: a line of its own for one that is new or
/// comes with a periodic report; and how many textures were new, and how much
/// time has passed, since the last periodic report, if there was one.
pub proof fn lemma_reports(m: DiagModel, handle: u64, now: u64, r: AccelPaintReport)
    requires
        m.wf(),
        reports(m, handle, now, r),
    ensures
        r.frame_count == m.frame_count + 1,
        r.is_new <==> !m.recent.contains(handle),
        r.distinct_count == m.distinct_count + if r.is_new {
            1int
        } else {
            0
        },
        r.periodic <==> r.frame_count % 200 == 0,
        r.logged <==> r.is_new || r.periodic,
        r.growth is Some <==> r.periodic && m.last_periodic_at is Some,
        r.growth matches Some(g) ==> m.last_periodic_distinct_count + g.new_handles
            == r.distinct_count && (now >= m.last_periodic_at->0 ==> m.last_periodic_at->0
            + g.elapsed == now) && (now < m.last_periodic_at->0 ==> g.elapsed == 0),
{
}

} // verus!
