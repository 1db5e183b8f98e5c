use crate::config::{Action, Bind, Config};
use crate::cube::Move;
use vstd::prelude::*;

verus! {

/// `p` is a proper beginning of `t`: `t` is longer and starts with `p`.
pub open spec fn extends(p: Seq<Move>, t: Seq<Move>) -> bool {
    p.len() < t.len() && t.subrange(0, p.len() as int) == p
}

/// The lowest index among the first `n` binds whose trigger is exactly `p`.
pub open spec fn first_exact<K>(binds: Seq<Bind<K>>, p: Seq<Move>, n: int) -> Option<int>
    decreases n,
{
    if n <= 0 {
        None
    } else {
        match first_exact(binds, p, n - 1) {
            Some(i) => Some(i),
            None => if binds[n - 1].trigger@ == p {
                Some(n - 1)
            } else {
                None
            },
        }
    }
}

/// Once found among the first `k` binds, the first exact match stays the
/// first among more binds.
proof fn lemma_first_exact_stable<K>(binds: Seq<Bind<K>>, p: Seq<Move>, k: int, n: int)
    requires
        k <= n,
        first_exact(binds, p, k) is Some,
    ensures
        first_exact(binds, p, n) == first_exact(binds, p, k),
    decreases n - k,
{
    if k < n {
        lemma_first_exact_stable(binds, p, k, n - 1);
    }
}

/// How many of the first `n` binds have a trigger that properly extends `p`.
pub open spec fn extension_count<K>(binds: Seq<Bind<K>>, p: Seq<Move>, n: int) -> nat
    decreases n,
{
    if n <= 0 {
        0
    } else {
        extension_count(binds, p, n - 1) + if extends(p, binds[n - 1].trigger@) {
            1nat
        } else {
            0nat
        }
    }
}

/// How many of the first `n` binds have exactly `p` as their trigger.
pub open spec fn exact_count<K>(binds: Seq<Bind<K>>, p: Seq<Move>, n: int) -> nat
    decreases n,
{
    if n <= 0 {
        0
    } else {
        exact_count(binds, p, n - 1) + if binds[n - 1].trigger@ == p {
            1nat
        } else {
            0nat
        }
    }
}

/// The tentative bind is a completed match of `prefix`: its trigger is
/// exactly `prefix`.
pub open spec fn completes<K>(binds: Seq<Bind<K>>, prefix: Seq<Move>, tentative: Option<int>) -> bool {
    match tentative {
        Some(b) => binds[b].trigger@ == prefix,
        None => false,
    }
}

/// The lowest index among the first `n` binds whose trigger properly extends
/// `p`.
pub open spec fn first_extension<K>(binds: Seq<Bind<K>>, p: Seq<Move>, n: int) -> Option<int>
    decreases n,
{
    if n <= 0 {
        None
    } else {
        match first_extension(binds, p, n - 1) {
            Some(i) => Some(i),
            None => if extends(p, binds[n - 1].trigger@) {
                Some(n - 1)
            } else {
                None
            },
        }
    }
}

/// The actions of bind `b`, or none.
pub open spec fn actions_of<K>(binds: Seq<Bind<K>>, b: Option<int>) -> Seq<Action<K>> {
    match b {
        Some(i) => binds[i].actions@,
        None => seq![],
    }
}

/// The prefix and the emitted actions after move `m` is appended and an
/// overshoot is handled: where no trigger is exactly the longer prefix and
/// the tentative bind was a completed match of the prefix before, that bind
/// fires and accumulation restarts from `m` alone. Otherwise the longer
/// prefix is kept while some trigger extends it, and accumulation restarts
/// from `m` alone when none does.
pub open spec fn appended<K>(binds: Seq<Bind<K>>, prefix: Seq<Move>, tentative: Option<int>, m: Move) -> (Seq<Move>, Seq<Action<K>>) {
    let n = binds.len() as int;
    let q = prefix.push(m);
    if first_exact(binds, q, n) is Some {
        (q, seq![])
    } else if completes(binds, prefix, tentative) {
        (seq![m], actions_of(binds, tentative))
    } else if extension_count(binds, q, n) > 0 {
        (q, seq![])
    } else {
        (seq![m], seq![])
    }
}

/// The prefix, the tentative bind and the emitted actions after move `m`.
/// Where a trigger is exactly the prefix, the first such bind becomes
/// tentative, and it fires at once, emptying the prefix, if it is the only
/// bind with that trigger and no trigger properly extends the prefix.
/// Otherwise the one trigger that properly
/// extends the prefix, if there is exactly one, becomes tentative.
pub open spec fn after_move<K>(binds: Seq<Bind<K>>, prefix: Seq<Move>, tentative: Option<int>, m: Move) -> (Seq<Move>, Option<int>, Seq<Action<K>>) {
    let n = binds.len() as int;
    let p = appended(binds, prefix, tentative, m).0;
    let out = appended(binds, prefix, tentative, m).1;
    match first_exact(binds, p, n) {
        Some(i) => if extension_count(binds, p, n) == 0 && exact_count(binds, p, n) == 1 {
            (seq![], None, out + binds[i].actions@)
        } else {
            (p, Some(i), out)
        },
        None => if extension_count(binds, p, n) == 1 {
            (p, first_extension(binds, p, n), out)
        } else {
            (p, None, out)
        },
    }
}

/// Whether `now` is a full timeout after the last activity.
pub open spec fn timed_out(last: u64, timeout: u64, now: u64) -> bool {
    now >= last + timeout
}

/// Whether two move sequences are equal.
fn same_moves(a: &Vec<Move>, b: &Vec<Move>) -> (r: bool)
    ensures
        r == (a@ == b@),
{
    if a.len() != b.len() {
        return false;
    }
    let mut i: usize = 0;
    while i < a.len()
        invariant
            i <= a@.len(),
            a@.len() == b@.len(),
            a@.subrange(0, i as int) == b@.subrange(0, i as int),
        decreases a@.len() - i,
    {
        if a[i] != b[i] {
            assert(a@[i as int] != b@[i as int]);
            return false;
        }
        assert(a@.subrange(0, i + 1) =~= a@.subrange(0, i as int).push(a@[i as int]));
        assert(b@.subrange(0, i + 1) =~= b@.subrange(0, i as int).push(b@[i as int]));
        i = i + 1;
    }
    assert(a@ =~= a@.subrange(0, i as int));
    assert(b@ =~= b@.subrange(0, i as int));
    true
}

/// Whether `t` is longer than `p` and starts with it.
fn properly_extends(p: &Vec<Move>, t: &Vec<Move>) -> (r: bool)
    ensures
        r == extends(p@, t@),
{
    if p.len() >= t.len() {
        return false;
    }
    let mut i: usize = 0;
    while i < p.len()
        invariant
            i <= p@.len(),
            p@.len() < t@.len(),
            p@.subrange(0, i as int) == t@.subrange(0, i as int),
        decreases p@.len() - i,
    {
        if p[i] != t[i] {
            assert(t@.subrange(0, p@.len() as int)[i as int] != p@[i as int]);
            return false;
        }
        assert(p@.subrange(0, i + 1) =~= p@.subrange(0, i as int).push(p@[i as int]));
        assert(t@.subrange(0, i + 1) =~= t@.subrange(0, i as int).push(t@[i as int]));
        i = i + 1;
    }
    assert(p@ =~= p@.subrange(0, i as int));
    true
}

/// Matches the stream of moves against the trigger table and decides which
/// actions to emit, and when. Times are milliseconds on the caller's clock.
pub struct StateMachine<K> {
    config: Config<K>,
    current_prefix: Vec<Move>,
    tentative_bind: Option<usize>,
    last_activity: u64,
}

impl<K: Copy> StateMachine<K> {
    /// The trigger table.
    pub closed spec fn binds(&self) -> Seq<Bind<K>> {
        self.config.binds@
    }

    /// The inactivity timeout.
    pub closed spec fn timeout(&self) -> u64 {
        self.config.timeout
    }

    /// The moves seen since the last reset.
    pub closed spec fn prefix(&self) -> Seq<Move> {
        self.current_prefix@
    }

    /// The tentative bind, by its index in the table.
    pub closed spec fn tentative(&self) -> Option<int> {
        match self.tentative_bind {
            Some(b) => Some(b as int),
            None => None,
        }
    }

    /// The time of the last move or reset.
    pub closed spec fn last_activity(&self) -> u64 {
        self.last_activity
    }

    /// The tentative bind, if any, names a bind of the table.
    pub closed spec fn wf(&self) -> bool {
        match self.tentative_bind {
            Some(b) => b < self.config.binds@.len(),
            None => true,
        }
    }

    /// An idle machine over `config`, whose clock starts at 0.
    pub fn new(config: Config<K>) -> (r: Self)
        ensures
            r.wf(),
            r.binds() == config.binds@,
            r.timeout() == config.timeout,
            r.prefix() == Seq::<Move>::empty(),
            r.tentative() == None::<int>,
            r.last_activity() == 0,
    {
        StateMachine { config, current_prefix: Vec::new(), tentative_bind: None, last_activity: 0 }
    }

    /// The moves seen since the last reset.
    pub fn current_prefix(&self) -> (r: &Vec<Move>)
        ensures
            r@ == self.prefix(),
    {
        &self.current_prefix
    }

    /// The tentative bind, by its index in the table.
    pub fn tentative_bind(&self) -> (r: Option<usize>)
        ensures
            r matches Some(b) ==> self.tentative() == Some(b as int),
            r is None ==> self.tentative() is None,
    {
        self.tentative_bind
    }

    /// The first bind whose trigger is exactly the current prefix.
    fn get_tentative_bind(&self) -> (r: Option<usize>)
        ensures
            r matches Some(b) ==> first_exact(self.binds(), self.prefix(), self.binds().len() as int)
                == Some(b as int),
            r is None ==> first_exact(self.binds(), self.prefix(), self.binds().len() as int) is None,
    {
        let mut i: usize = 0;
        while i < self.config.binds.len()
            invariant
                i <= self.config.binds@.len(),
                first_exact(self.binds(), self.prefix(), i as int) is None,
            decreases self.config.binds@.len() - i,
        {
            if same_moves(&self.config.binds[i].trigger, &self.current_prefix) {
                proof {
                    lemma_first_exact_stable(self.binds(), self.prefix(), i + 1, self.binds().len() as int);
                }
                return Some(i);
            }
            i = i + 1;
        }
        None
    }

    /// How many triggers properly extend the current prefix, the first of
    /// them, and how many triggers are exactly the current prefix.
    fn scan_extensions(&self) -> (r: (usize, Option<usize>, usize))
        ensures
            r.2 == exact_count(self.binds(), self.prefix(), self.binds().len() as int),
            r.0 == extension_count(self.binds(), self.prefix(), self.binds().len() as int),
            r.1 matches Some(b) ==> first_extension(self.binds(), self.prefix(), self.binds().len() as int)
                == Some(b as int),
            r.1 is None ==> first_extension(self.binds(), self.prefix(), self.binds().len() as int) is None,
    {
        let mut count: usize = 0;
        let mut exact: usize = 0;
        let mut first: Option<usize> = None;
        let mut i: usize = 0;
        while i < self.config.binds.len()
            invariant
                i <= self.config.binds@.len(),
                count <= i,
                exact <= i,
                exact == exact_count(self.binds(), self.prefix(), i as int),
                count == extension_count(self.binds(), self.prefix(), i as int),
                first matches Some(b) ==> first_extension(self.binds(), self.prefix(), i as int) == Some(
                    b as int,
                ),
                first is None ==> first_extension(self.binds(), self.prefix(), i as int) is None,
            decreases self.config.binds@.len() - i,
        {
            if properly_extends(&self.current_prefix, &self.config.binds[i].trigger) {
                if first.is_none() {
                    first = Some(i);
                }
                count = count + 1;
            }
            if same_moves(&self.config.binds[i].trigger, &self.current_prefix) {
                exact = exact + 1;
            }
            i = i + 1;
        }
        (count, first, exact)
    }

    /// Appends the actions of bind `b` to `out`.
    fn play_bind(&self, b: usize, out: &mut Vec<Action<K>>)
        requires
            b < self.binds().len(),
        ensures
            final(out)@ == old(out)@ + self.binds()[b as int].actions@,
    {
        let actions = &self.config.binds[b].actions;
        let mut i: usize = 0;
        while i < actions.len()
            invariant
                i <= actions@.len(),
                actions@ == self.binds()[b as int].actions@,
                out@ =~= old(out)@ + actions@.subrange(0, i as int),
            decreases actions@.len() - i,
        {
            out.push(actions[i]);
            i = i + 1;
        }
        assert(actions@ =~= actions@.subrange(0, i as int));
    }

    /// Emits the actions of the tentative bind, if any, and returns to idle:
    /// empty prefix, no tentative bind.
    pub fn reset(&mut self) -> (r: Vec<Action<K>>)
        requires
            old(self).wf(),
        ensures
            final(self).wf(),
            r@ == actions_of(old(self).binds(), old(self).tentative()),
            final(self).prefix() == Seq::<Move>::empty(),
            final(self).tentative() == None::<int>,
            final(self).binds() == old(self).binds(),
            final(self).timeout() == old(self).timeout(),
            final(self).last_activity() == old(self).last_activity(),
    {
        let mut out: Vec<Action<K>> = Vec::new();
        if let Some(b) = self.tentative_bind {
            self.play_bind(b, &mut out);
            assert(out@ =~= actions_of(self.binds(), self.tentative()));
        }
        self.current_prefix.clear();
        self.tentative_bind = None;
        out
    }

    /// Takes in move `m`, seen at time `now`, and returns the actions that
    /// it fires; see `after_move`.
    pub fn push_move(&mut self, m: Move, now: u64) -> (r: Vec<Action<K>>)
        requires
            old(self).wf(),
        ensures
            final(self).wf(),
            (final(self).prefix(), final(self).tentative(), r@) == after_move(
                old(self).binds(),
                old(self).prefix(),
                old(self).tentative(),
                m,
            ),
            final(self).binds() == old(self).binds(),
            final(self).timeout() == old(self).timeout(),
            final(self).last_activity() == now,
    {
        let ghost binds = self.binds();
        let ghost n = binds.len() as int;
        let ghost q = old(self).prefix().push(m);
        let mut out: Vec<Action<K>> = Vec::new();
        let held_complete = match self.tentative_bind {
            Some(b) => same_moves(&self.config.binds[b].trigger, &self.current_prefix),
            None => false,
        };
        assert(held_complete == completes(binds, old(self).prefix(), old(self).tentative()));
        self.current_prefix.push(m);
        assert(self.prefix() == q);
        match self.get_tentative_bind() {
            Some(_) => {},
            None => {
                if held_complete {
                    if let Some(b) = self.tentative_bind {
                        self.play_bind(b, &mut out);
                    }
                    self.current_prefix.clear();
                    self.current_prefix.push(m);
                } else {
                    let (count, _, _) = self.scan_extensions();
                    if count == 0 {
                        self.current_prefix.clear();
                        self.current_prefix.push(m);
                    }
                }
            },
        }
        assert(self.prefix() =~= appended(binds, old(self).prefix(), old(self).tentative(), m).0);
        assert(out@ =~= appended(binds, old(self).prefix(), old(self).tentative(), m).1);
        let exact = self.get_tentative_bind();
        let (count, first, matches) = self.scan_extensions();
        match exact {
            Some(i) => {
                proof {
                    lemma_first_exact_bound(binds, self.prefix(), n);
                }
                if count == 0 && matches == 1 {
                    self.play_bind(i, &mut out);
                    self.current_prefix.clear();
                    self.tentative_bind = None;
                } else {
                    self.tentative_bind = Some(i);
                }
            },
            None => {
                if count == 1 {
                    proof {
                        lemma_first_extension_bound(binds, self.prefix(), n);
                    }
                    self.tentative_bind = first;
                } else {
                    self.tentative_bind = None;
                }
            },
        }
        self.last_activity = now;
        assert(self.prefix() =~= after_move(binds, old(self).prefix(), old(self).tentative(), m).0);
        out
    }

    /// Handles the clock reaching `now` with no move since the last
    /// activity: once the timeout has passed, the machine resets, firing the
    /// tentative bind, and the clock restarts from `now`. Before that,
    /// nothing changes.
    pub fn on_timeout(&mut self, now: u64) -> (r: Vec<Action<K>>)
        requires
            old(self).wf(),
        ensures
            final(self).wf(),
            final(self).binds() == old(self).binds(),
            final(self).timeout() == old(self).timeout(),
            timed_out(old(self).last_activity(), old(self).timeout(), now) ==> {
                &&& r@ == actions_of(old(self).binds(), old(self).tentative())
                &&& final(self).prefix() == Seq::<Move>::empty()
                &&& final(self).tentative() == None::<int>
                &&& final(self).last_activity() == now
            },
            !timed_out(old(self).last_activity(), old(self).timeout(), now) ==> {
                &&& r@ == Seq::<Action<K>>::empty()
                &&& *final(self) == *old(self)
            },
    {
        if now >= self.last_activity && now - self.last_activity >= self.config.timeout {
            let out = self.reset();
            self.last_activity = now;
            out
        } else {
            Vec::new()
        }
    }

    /// The time at which the machine times out if no move comes first,
    /// capped at the largest time.
    pub fn deadline(&self) -> (r: u64)
        ensures
            r == if self.last_activity() + self.timeout() <= u64::MAX {
                (self.last_activity() + self.timeout()) as u64
            } else {
                u64::MAX
            },
    {
        self.last_activity.saturating_add(self.config.timeout)
    }
}

/// The first exact match names a bind among the first `n`.
proof fn lemma_first_exact_bound<K>(binds: Seq<Bind<K>>, p: Seq<Move>, n: int)
    ensures
        first_exact(binds, p, n) matches Some(i) ==> 0 <= i < n,
    decreases n,
{
    if n > 0 {
        lemma_first_exact_bound(binds, p, n - 1);
    }
}

/// The first proper extension names a bind among the first `n`.
proof fn lemma_first_extension_bound<K>(binds: Seq<Bind<K>>, p: Seq<Move>, n: int)
    ensures
        first_extension(binds, p, n) matches Some(i) ==> 0 <= i < n,
    decreases n,
{
    if n > 0 {
        lemma_first_extension_bound(binds, p, n - 1);
    }
}

/// The inactivity clock restarts on every move: where moves come at times
/// `times`, each less than a timeout after the one before, a timeout check
/// between two moves never fires, since the clock counts from the latest
/// move; a check a full timeout after the last move fires.
pub proof fn lemma_timer_restarts(times: Seq<u64>, timeout: u64, k: int, now: u64)
    requires
        0 <= k < times.len(),
        forall|i: int| 0 <= i < times.len() - 1 ==> #[trigger] times[i] <= times[i + 1] < times[i] + timeout,
        times[k] <= now,
        k + 1 < times.len() ==> now < times[k + 1],
    ensures
        k + 1 < times.len() ==> !timed_out(times[k], timeout, now),
        k + 1 == times.len() ==> (timed_out(times[k], timeout, now) <==> now >= times[k] + timeout),
{
    if k + 1 < times.len() {
        assert(times[k] <= times[k + 1] < times[k] + timeout);
    }
}

} // verus!
