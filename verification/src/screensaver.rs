//! Lock-screen idle state: when the screensaver starts and stops, and which
//! monitors need a fresh animation. Times are nanoseconds from any fixed
//! origin; the animations themselves belong to the platform layer.
use vstd::prelude::*;

verus! {

pub const NANOS_PER_SECOND: u128 = 1_000_000_000;

/// What the idle logic reads of the screensaver configuration.
#[derive(Clone, Copy, Debug, PartialEq, Eq)]
pub struct Settings {
    pub enabled: bool,
    /// Number of configured effects; none means no screensaver.
    pub effects: usize,
    /// Idle time before the screensaver starts, in seconds.
    pub timeout: u64,
}

pub struct Saver {
    config: Settings,
    activity: u64,
    idle_since: u64,
    pub saving: bool,
    last_frame: u64,
    seed: u64,
}

/// Nanoseconds from `since` to `now`, zero when `now` is earlier.
pub open spec fn elapsed(now: u64, since: u64) -> int {
    if now >= since { now - since } else { 0 }
}

/// Whether the screensaver starts at `now`, with no new activity.
pub open spec fn times_out(config: Settings, saving: bool, idle_since: u64, now: u64) -> bool {
    config.enabled && config.effects > 0 && !saving && elapsed(now, idle_since) >= config.timeout * NANOS_PER_SECOND
}

/// The seed of the next animation (a 64-bit linear congruential step,
/// wrapping like `u64::wrapping_mul` and `u64::wrapping_add`).
pub open spec fn spec_next_seed(seed: u64) -> u64 {
    vstd::wrapping::u64_specs::wrapping_add(vstd::wrapping::u64_specs::wrapping_mul(seed, 6364136223846793005u64), 1442695040888963407u64)
}

pub fn next_seed(seed: u64) -> (r: u64)
    ensures
        r == spec_next_seed(seed),
{
    seed.wrapping_mul(6364136223846793005).wrapping_add(1442695040888963407)
}

impl Saver {
    pub closed spec fn settings(&self) -> Settings {
        self.config
    }

    pub closed spec fn activity(&self) -> u64 {
        self.activity
    }

    pub closed spec fn idle_since(&self) -> u64 {
        self.idle_since
    }

    pub closed spec fn seed(&self) -> u64 {
        self.seed
    }

    pub closed spec fn is_saving(&self) -> bool {
        self.saving
    }

    pub closed spec fn last_frame(&self) -> u64 {
        self.last_frame
    }

    /// Idle since `now`, at activity counter `activity`, not saving.
    pub fn new(config: Settings, now: u64, activity: u64, seed: u64) -> (s: Self)
        ensures
            s.settings() == config,
            s.activity() == activity,
            s.idle_since() == now,
            !s.is_saving(),
            s.seed() == seed,
    {
        Saver { config, activity, idle_since: now, saving: false, last_frame: now, seed }
    }

    /// Losing the input desktop must not keep an invisible animation running:
    /// idle again from `now`, not saving.
    pub fn reset(&mut self, now: u64, activity: u64)
        ensures
            final(self).settings() == old(self).settings(),
            final(self).activity() == activity,
            final(self).idle_since() == now,
            !final(self).is_saving(),
            final(self).seed() == old(self).seed(),
    {
        self.activity = activity;
        self.idle_since = now;
        self.saving = false;
    }

    /// Returns whether the visible mode changed. Activity always wins over
    /// the timeout: new activity stops the screensaver and restarts the idle
    /// time; otherwise an enabled screensaver with effects starts once idle
    /// for its timeout.
    pub fn poll(&mut self, now: u64, activity: u64) -> (changed: bool)
        ensures
            final(self).settings() == old(self).settings(),
            final(self).seed() == old(self).seed(),
            activity != old(self).activity() ==> {
                &&& changed == old(self).is_saving()
                &&& !final(self).is_saving()
                &&& final(self).activity() == activity
                &&& final(self).idle_since() == now
            },
            activity == old(self).activity() ==> {
                &&& changed == times_out(old(self).settings(), old(self).is_saving(), old(self).idle_since(), now)
                &&& final(self).is_saving() == (old(self).is_saving() || changed)
                &&& final(self).activity() == old(self).activity()
                &&& final(self).idle_since() == old(self).idle_since()
            },
    {
        if activity != self.activity {
            self.activity = activity;
            self.idle_since = now;
            let was = self.saving;
            self.saving = false;
            return was;
        }
        if !self.config.enabled || self.config.effects == 0 || self.saving {
            return false;
        }
        let idle: u128 = if now >= self.idle_since { (now - self.idle_since) as u128 } else { 0 };
        if idle >= self.config.timeout as u128 * NANOS_PER_SECOND {
            self.saving = true;
            self.last_frame = now;
            return true;
        }
        false
    }

    /// Nanoseconds since the previous frame, and `now` becomes the previous frame.
    pub fn tick(&mut self, now: u64) -> (elapsed_nanos: u64)
        ensures
            elapsed_nanos == elapsed(now, old(self).last_frame()),
            final(self).last_frame() == now,
            final(self).settings() == old(self).settings(),
            final(self).is_saving() == old(self).is_saving(),
            final(self).activity() == old(self).activity(),
            final(self).idle_since() == old(self).idle_since(),
            final(self).seed() == old(self).seed(),
    {
        let e = if now >= self.last_frame { now - self.last_frame } else { 0 };
        self.last_frame = now;
        e
    }

    /// Which monitors need a new animation: one per surface size that differs
    /// from the animation at the same index (`current` sizes, extra ones
    /// dropped), each with the next seed; `None` where the animation goes on.
    pub fn plan(&mut self, current: &[(usize, usize)], surfaces: &[(usize, usize)]) -> (r: Vec<Option<u64>>)
        ensures
            r@.len() == surfaces@.len(),
            final(self).settings() == old(self).settings(),
            final(self).is_saving() == old(self).is_saving(),
            final(self).activity() == old(self).activity(),
            final(self).idle_since() == old(self).idle_since(),
            (r@, final(self).seed()) == spec_plan(current@, surfaces@, old(self).seed(), surfaces@.len() as int),
            final(self).last_frame() == old(self).last_frame(),
            forall|i: int| 0 <= i < surfaces@.len() ==> (#[trigger] r@[i] is Some <==> resized(current@, surfaces@, i)),
    {
        let mut out: Vec<Option<u64>> = Vec::new();
        let mut i: usize = 0;
        while i < surfaces.len()
            invariant
                i <= surfaces@.len(),
                out@.len() == i,
                (out@, self.seed) == spec_plan(current@, surfaces@, old(self).seed, i as int),
                self.config == old(self).config,
                self.saving == old(self).saving,
                self.activity == old(self).activity,
                self.idle_since == old(self).idle_since,
                self.last_frame == old(self).last_frame,
            decreases surfaces@.len() - i,
        {
            let fresh = i >= current.len() || current[i].0 != surfaces[i].0 || current[i].1 != surfaces[i].1;
            if fresh {
                self.seed = next_seed(self.seed);
                out.push(Some(self.seed));
            } else {
                out.push(None);
            }
            i += 1;
        }
        proof {
            plan_renews_exactly_the_resized(current@, surfaces@, old(self).seed, surfaces@.len() as int);
        }
        out
    }
}

/// New animations for the first `n` surfaces and the seed after them.
pub open spec fn spec_plan(current: Seq<(usize, usize)>, surfaces: Seq<(usize, usize)>, seed: u64, n: int) -> (Seq<Option<u64>>, u64)
    decreases n,
{
    if n <= 0 {
        (Seq::empty(), seed)
    } else {
        let (plan, s) = spec_plan(current, surfaces, seed, n - 1);
        let i = n - 1;
        if i >= current.len() || current[i] != surfaces[i] {
            (plan.push(Some(spec_next_seed(s))), spec_next_seed(s))
        } else {
            (plan.push(None::<u64>), s)
        }
    }
}

/// Whether surface `i` needs a fresh animation: it is new, or its width
/// or its height differs from the animation running on it.
pub open spec fn resized(current: Seq<(usize, usize)>, surfaces: Seq<(usize, usize)>, i: int) -> bool {
    i >= current.len() || current[i].0 != surfaces[i].0 || current[i].1 != surfaces[i].1
}

/// A plan has one entry per surface, and an entry is a fresh animation
/// exactly when its surface is new or has another size (width or height);
/// a surface of unchanged size keeps its animation.
pub proof fn plan_renews_exactly_the_resized(current: Seq<(usize, usize)>, surfaces: Seq<(usize, usize)>, seed: u64, n: int)
    requires
        0 <= n <= surfaces.len(),
    ensures
        spec_plan(current, surfaces, seed, n).0.len() == n,
        forall|i: int| 0 <= i < n ==> (#[trigger] spec_plan(current, surfaces, seed, n).0[i] is Some <==> resized(current, surfaces, i)),
    decreases n,
{
    if n > 0 {
        plan_renews_exactly_the_resized(current, surfaces, seed, n - 1);
        let before = spec_plan(current, surfaces, seed, n - 1).0;
        let now = spec_plan(current, surfaces, seed, n).0;
        assert forall|i: int| 0 <= i < n implies (#[trigger] now[i] is Some <==> resized(current, surfaces, i)) by {
            if i < n - 1 {
                assert(now[i] == before[i]);
            }
        }
    }
}

} // verus!
