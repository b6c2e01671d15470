//! The training drills, the choice of the aimed target, and the settling of
//! projectile hits within one frame.
use vstd::prelude::*;

verus! {

/// The four training drills.
#[derive(Clone, Copy, Debug, PartialEq, Eq, Structural)]
pub enum ScenarioKind {
    StaticFlick,
    SmoothTrack,
    TargetSwitch,
    ProjectileLead,
}

/// Number of scenarios on the menu.
pub const SCENARIO_COUNT: usize = 4;

/// Position of a scenario in the menu order.
pub open spec fn spec_menu_index(kind: ScenarioKind) -> nat {
    match kind {
        ScenarioKind::StaticFlick => 0,
        ScenarioKind::SmoothTrack => 1,
        ScenarioKind::TargetSwitch => 2,
        ScenarioKind::ProjectileLead => 3,
    }
}

/// Scenario shown at a given menu position.
pub open spec fn spec_kind_at(index: int) -> ScenarioKind {
    if index == 0 {
        ScenarioKind::StaticFlick
    } else if index == 1 {
        ScenarioKind::SmoothTrack
    } else if index == 2 {
        ScenarioKind::TargetSwitch
    } else {
        ScenarioKind::ProjectileLead
    }
}

pub open spec fn spec_target_count(kind: ScenarioKind) -> nat {
    match kind {
        ScenarioKind::StaticFlick => 6,
        ScenarioKind::SmoothTrack => 1,
        ScenarioKind::TargetSwitch => 5,
        ScenarioKind::ProjectileLead => 3,
    }
}

impl ScenarioKind {
    /// Every scenario, in menu order.
    pub const ALL: [ScenarioKind; 4] = [
        ScenarioKind::StaticFlick,
        ScenarioKind::SmoothTrack,
        ScenarioKind::TargetSwitch,
        ScenarioKind::ProjectileLead,
    ];

    /// The scenario at a menu position.
    pub fn from_index(index: usize) -> (kind: ScenarioKind)
        requires
            index < 4,
        ensures
            kind == spec_kind_at(index as int),
            spec_menu_index(kind) == index,
    {
        if index == 0 {
            ScenarioKind::StaticFlick
        } else if index == 1 {
            ScenarioKind::SmoothTrack
        } else if index == 2 {
            ScenarioKind::TargetSwitch
        } else {
            ScenarioKind::ProjectileLead
        }
    }

    pub fn name(self) -> (name: &'static str)
        ensures
            name@ == match self {
                ScenarioKind::StaticFlick => "Static Flick"@,
                ScenarioKind::SmoothTrack => "Smooth Track"@,
                ScenarioKind::TargetSwitch => "Target Switch"@,
                ScenarioKind::ProjectileLead => "Projectile Lead"@,
            },
    {
        match self {
            ScenarioKind::StaticFlick => "Static Flick",
            ScenarioKind::SmoothTrack => "Smooth Track",
            ScenarioKind::TargetSwitch => "Target Switch",
            ScenarioKind::ProjectileLead => "Projectile Lead",
        }
    }

    pub fn subtitle(self) -> (subtitle: &'static str)
        ensures
            subtitle@ == match self {
                ScenarioKind::StaticFlick => "Fast acquisition across varied depth and elevation"@,
                ScenarioKind::SmoothTrack => "Sustain contact through reactive horizontal movement"@,
                ScenarioKind::TargetSwitch => "Transfer cleanly between several moving threats"@,
                ScenarioKind::ProjectileLead => "Lead mobile targets with finite projectile travel"@,
            },
    {
        match self {
            ScenarioKind::StaticFlick => "Fast acquisition across varied depth and elevation",
            ScenarioKind::SmoothTrack => "Sustain contact through reactive horizontal movement",
            ScenarioKind::TargetSwitch => "Transfer cleanly between several moving threats",
            ScenarioKind::ProjectileLead => "Lead mobile targets with finite projectile travel",
        }
    }

    pub fn instructions(self) -> (instructions: &'static str)
        ensures
            instructions@ == match self {
                ScenarioKind::SmoothTrack => "Hold mouse 1 on the target"@,
                ScenarioKind::ProjectileLead => "Click to fire  |  L toggles lead guide"@,
                _ => "Click targets as quickly and cleanly as possible"@,
            },
    {
        match self {
            ScenarioKind::SmoothTrack => "Hold mouse 1 on the target",
            ScenarioKind::ProjectileLead => "Click to fire  |  L toggles lead guide",
            _ => "Click targets as quickly and cleanly as possible",
        }
    }

    /// Whether the drill scores continuous contact rather than shots.
    pub fn is_tracking(self) -> (tracking: bool)
        ensures
            tracking == (self == ScenarioKind::SmoothTrack),
    {
        self == ScenarioKind::SmoothTrack
    }

    /// Whether shots travel as projectiles rather than as instant rays.
    pub fn uses_projectiles(self) -> (projectiles: bool)
        ensures
            projectiles == (self == ScenarioKind::ProjectileLead),
    {
        self == ScenarioKind::ProjectileLead
    }

    /// Points a hit earns before the reaction-speed bonus and the combo
    /// multiplier.
    pub fn base_points(self) -> (points: u64)
        ensures
            points == match self {
                ScenarioKind::StaticFlick => 150u64,
                ScenarioKind::TargetSwitch => 180u64,
                ScenarioKind::ProjectileLead => 240u64,
                ScenarioKind::SmoothTrack => 0u64,
            },
    {
        match self {
            ScenarioKind::StaticFlick => 150,
            ScenarioKind::TargetSwitch => 180,
            ScenarioKind::ProjectileLead => 240,
            ScenarioKind::SmoothTrack => 0,
        }
    }

    pub fn target_count(self) -> (count: usize)
        ensures
            count == spec_target_count(self),
            count >= 1,
    {
        match self {
            ScenarioKind::StaticFlick => 6,
            ScenarioKind::SmoothTrack => 1,
            ScenarioKind::TargetSwitch => 5,
            ScenarioKind::ProjectileLead => 3,
        }
    }
}


// ---------------------------------------------------------------------------
// Choosing the aimed target
// ---------------------------------------------------------------------------

/// `keys[i]` is `Some(k)` when the aim ray meets target `i`, `k` ordering that
/// hit by distance (a smaller key is nearer). The chosen index is the first
/// one holding the smallest key.
pub open spec fn is_nearest_hit(keys: Seq<Option<i32>>, i: int) -> bool {
    &&& 0 <= i < keys.len()
    &&& keys[i] is Some
    &&& forall|j: int| 0 <= j < keys.len() && keys[j] is Some ==> keys[i]->0 <= keys[j]->0
    &&& forall|j: int| 0 <= j < i && keys[j] is Some ==> keys[i]->0 < keys[j]->0
}

/// Law: whenever the ray meets some target there is exactly one aimed target:
/// its key is no larger than any other hit's key, and every hit before it has
/// a strictly larger key.
pub proof fn law_aimed_target_is_unique(keys: Seq<Option<i32>>)
    ensures
        (exists|j: int| 0 <= j < keys.len() && keys[j] is Some) ==> exists|i: int| is_nearest_hit(keys, i),
        forall|i: int, j: int| is_nearest_hit(keys, i) && is_nearest_hit(keys, j) ==> i == j,
        forall|i: int, j: int| #![trigger is_nearest_hit(keys, i), keys[j]]
            is_nearest_hit(keys, i) && 0 <= j < keys.len() && keys[j] is Some ==> keys[i]->0 <= keys[j]->0
            && (j < i ==> keys[i]->0 < keys[j]->0),
    decreases keys.len(),
{
    if keys.len() > 0 && exists|j: int| 0 <= j < keys.len() && keys[j] is Some {
        let init = keys.drop_last();
        law_aimed_target_is_unique(init);
        let last = keys.len() - 1;
        if exists|j: int| 0 <= j < init.len() && init[j] is Some {
            let i = choose|i: int| is_nearest_hit(init, i);
            assert(init[i] == keys[i]);
            if keys[last] is Some && keys[last]->0 < keys[i]->0 {
                assert forall|j: int| 0 <= j < keys.len() && keys[j] is Some implies keys[last]->0 <= keys[j]->0 by {
                    if j < last {
                        assert(init[j] == keys[j]);
                    }
                }
                assert forall|j: int| 0 <= j < last && keys[j] is Some implies keys[last]->0 < keys[j]->0 by {
                    assert(init[j] == keys[j]);
                }
                assert(is_nearest_hit(keys, last));
            } else {
                assert forall|j: int| 0 <= j < keys.len() && keys[j] is Some implies keys[i]->0 <= keys[j]->0 by {
                    if j < last {
                        assert(init[j] == keys[j]);
                    }
                }
                assert forall|j: int| 0 <= j < i && keys[j] is Some implies keys[i]->0 < keys[j]->0 by {
                    assert(init[j] == keys[j]);
                }
                assert(is_nearest_hit(keys, i));
            }
        } else {
            let j = choose|j: int| 0 <= j < keys.len() && keys[j] is Some;
            if j < last {
                assert(init[j] == keys[j]);
            }
            assert(keys[last] is Some);
            assert forall|k: int| 0 <= k < last implies keys[k] is None by {
                assert(init[k] == keys[k]);
            }
            assert(is_nearest_hit(keys, last));
        }
    }
    assert forall|i: int, j: int| is_nearest_hit(keys, i) && is_nearest_hit(keys, j) implies i == j by {
        if i < j {
            assert(keys[j]->0 < keys[i]->0);
        } else if j < i {
            assert(keys[i]->0 < keys[j]->0);
        }
    }
}

/// Index of the nearest target that the aim ray meets, the earliest index
/// among equally near ones; `None` when the ray meets no target.
pub fn nearest_hit_index(keys: &Vec<Option<i32>>) -> (nearest: Option<usize>)
    ensures
        match nearest {
            None => forall|j: int| 0 <= j < keys@.len() ==> keys@[j] is None,
            Some(i) => is_nearest_hit(keys@, i as int),
        },
{
    let mut best: Option<usize> = None;
    let mut i: usize = 0;
    while i < keys.len()
        invariant
            i <= keys@.len(),
            match best {
                None => forall|j: int| 0 <= j < i ==> keys@[j] is None,
                Some(b) => b < i && is_nearest_hit(keys@.take(i as int), b as int),
            },
        decreases keys@.len() - i,
    {
        match keys[i] {
            Some(key) => {
                match best {
                    None => {
                        best = Some(i);
                    },
                    Some(b) => {
                        let current = keys[b].unwrap();
                        if key < current {
                            best = Some(i);
                        }
                    },
                }
            },
            None => {},
        }
        proof {
            let t = keys@.take(i + 1);
            assert(forall|j: int| 0 <= j < i ==> t[j] == keys@.take(i as int)[j]);
        }
        i = i + 1;
    }
    proof {
        assert(keys@.take(i as int) =~= keys@);
    }
    best
}

// ---------------------------------------------------------------------------
// Settling projectile collisions for one frame
// ---------------------------------------------------------------------------

/// Rows of a collision table as plain sequences.
pub open spec fn rows_view(rows: Seq<Vec<bool>>) -> Seq<Seq<bool>> {
    rows.map_values(|row: Vec<bool>| row@)
}

/// First target at or after `t` that the projectile overlaps and that no
/// earlier projectile has claimed; `row.len()` when there is none.
pub open spec fn first_open_from(taken: Seq<bool>, row: Seq<bool>, t: int) -> int
    decreases row.len() - t,
{
    if t < 0 || t >= row.len() {
        row.len() as int
    } else if !taken[t] && row[t] {
        t
    } else {
        first_open_from(taken, row, t + 1)
    }
}

/// Target claimed by projectile `p`, given the targets already claimed.
/// An expired projectile claims nothing.
pub open spec fn claim(expired: Seq<bool>, rows: Seq<Seq<bool>>, p: int, taken: Seq<bool>) -> Option<int> {
    if expired[p] {
        None
    } else {
        let t = first_open_from(taken, rows[p], 0);
        if t < rows[p].len() {
            Some(t)
        } else {
            None
        }
    }
}

/// Targets claimed by the first `p` projectiles.
pub open spec fn taken_after(expired: Seq<bool>, rows: Seq<Seq<bool>>, n: nat, p: int) -> Seq<bool>
    decreases p,
{
    if p <= 0 {
        Seq::new(n, |t: int| false)
    } else {
        let prev = taken_after(expired, rows, n, p - 1);
        match claim(expired, rows, p - 1, prev) {
            Some(t) => prev.update(t, true),
            None => prev,
        }
    }
}

/// The target that projectile `p` hits this frame, if any.
pub open spec fn projectile_hit(expired: Seq<bool>, rows: Seq<Seq<bool>>, n: nat, p: int) -> Option<int> {
    claim(expired, rows, p, taken_after(expired, rows, n, p))
}

/// Hits of the first `p` projectiles as (projectile, target) pairs, in
/// projectile order.
pub open spec fn hits_upto(expired: Seq<bool>, rows: Seq<Seq<bool>>, n: nat, p: int) -> Seq<(usize, usize)>
    decreases p,
{
    if p <= 0 {
        Seq::empty()
    } else {
        let prev = hits_upto(expired, rows, n, p - 1);
        match projectile_hit(expired, rows, n, p - 1) {
            Some(t) => prev.push(((p - 1) as usize, t as usize)),
            None => prev,
        }
    }
}

/// Number of `true` entries.
pub open spec fn count_true(s: Seq<bool>) -> nat
    decreases s.len(),
{
    if s.len() == 0 {
        0
    } else {
        count_true(s.drop_last()) + if s.last() { 1nat } else { 0nat }
    }
}

/// Law: the expired count is the number of projectiles flagged expired.
pub proof fn law_expired_count_counts_expired(expired: Seq<bool>)
    ensures
        count_true(expired) == expired.filter(|b: bool| b).len(),
    decreases expired.len(),
{
    reveal_with_fuel(Seq::filter, 1);
    if expired.len() > 0 {
        law_expired_count_counts_expired(expired.drop_last());
    }
}

/// A collision table fits `n` targets: one row per projectile, one column per
/// target.
pub open spec fn table_fits(expired: Seq<bool>, rows: Seq<Seq<bool>>, n: nat) -> bool {
    &&& rows.len() == expired.len()
    &&& expired.len() <= usize::MAX
    &&& n <= usize::MAX
    &&& forall|p: int| 0 <= p < rows.len() ==> #[trigger] rows[p].len() == n
}

/// Outcome of one frame of projectile flight.
pub struct ProjectileResolution {
    /// (projectile, target) pairs in projectile order.
    pub hits: Vec<(usize, usize)>,
    /// Targets struck this frame, which are to be respawned.
    pub hit_targets: Vec<bool>,
    /// Projectiles that stay in flight.
    pub keep: Vec<bool>,
    /// Projectiles that outlived their range this frame.
    pub expired_projectiles: u32,
}

proof fn lemma_first_open(taken: Seq<bool>, row: Seq<bool>, t: int)
    requires
        0 <= t <= row.len(),
    ensures
        t <= first_open_from(taken, row, t) <= row.len(),
        first_open_from(taken, row, t) < row.len() ==> !taken[first_open_from(taken, row, t)] && row[first_open_from(taken, row, t)],
        forall|k: int| t <= k < first_open_from(taken, row, t) ==> !(!taken[k] && row[k]),
    decreases row.len() - t,
{
    if t < row.len() && !(!taken[t] && row[t]) {
        lemma_first_open(taken, row, t + 1);
    }
}

proof fn lemma_count_true_bound(s: Seq<bool>)
    ensures
        count_true(s) <= s.len(),
    decreases s.len(),
{
    if s.len() > 0 {
        lemma_count_true_bound(s.drop_last());
    }
}

proof fn lemma_taken_len(expired: Seq<bool>, rows: Seq<Seq<bool>>, n: nat, p: int)
    requires
        table_fits(expired, rows, n),
        0 <= p <= expired.len(),
    ensures
        taken_after(expired, rows, n, p).len() == n,
    decreases p,
{
    if p > 0 {
        lemma_taken_len(expired, rows, n, p - 1);
        let prev = taken_after(expired, rows, n, p - 1);
        assert(rows[p - 1].len() == n);
        lemma_first_open(prev, rows[p - 1], 0);
    }
}

proof fn lemma_hits_inv(expired: Seq<bool>, rows: Seq<Seq<bool>>, n: nat, p: int)
    requires
        table_fits(expired, rows, n),
        0 <= p <= expired.len(),
    ensures
        ({
            let h = hits_upto(expired, rows, n, p);
            let tk = taken_after(expired, rows, n, p);
            &&& tk.len() == n
            &&& forall|i: int| 0 <= i < h.len() ==> {
                &&& (#[trigger] h[i]).0 < p
                &&& h[i].1 < n
                &&& !expired[h[i].0 as int]
                &&& rows[h[i].0 as int][h[i].1 as int]
                &&& tk[h[i].1 as int]
                &&& projectile_hit(expired, rows, n, h[i].0 as int) == Some(h[i].1 as int)
            }
            &&& forall|i: int, j: int| 0 <= i < j < h.len() ==> (#[trigger] h[i]).0 < (#[trigger] h[j]).0 && h[i].1 != h[j].1
            &&& forall|t: int| 0 <= t < n && #[trigger] tk[t] ==> exists|i: int| 0 <= i < h.len() && (#[trigger] h[i]).1 == t
            &&& forall|q: int| 0 <= q < p && (#[trigger] projectile_hit(expired, rows, n, q)) is Some ==> exists|i: int| 0 <= i < h.len() && (#[trigger] h[i]).0 == q
        }),
    decreases p,
{
    if p > 0 {
        lemma_hits_inv(expired, rows, n, p - 1);
        let prev_h = hits_upto(expired, rows, n, p - 1);
        let prev_tk = taken_after(expired, rows, n, p - 1);
        let h = hits_upto(expired, rows, n, p);
        let tk = taken_after(expired, rows, n, p);
        assert(rows[p - 1].len() == n);
        lemma_first_open(prev_tk, rows[p - 1], 0);
        match projectile_hit(expired, rows, n, p - 1) {
            Some(t) => {
                assert(h == prev_h.push(((p - 1) as usize, t as usize)));
                assert(tk == prev_tk.update(t, true));
                assert(!prev_tk[t]);
                assert forall|i: int| 0 <= i < prev_h.len() implies prev_h[i].1 != t by {
                    assert(prev_tk[prev_h[i].1 as int]);
                }
                assert forall|tt: int| 0 <= tt < n && #[trigger] tk[tt] implies exists|i: int| 0 <= i < h.len() && (#[trigger] h[i]).1 == tt by {
                    if tt == t {
                        assert(h[prev_h.len() as int].1 == tt);
                    } else {
                        assert(prev_tk[tt]);
                        let i = choose|i: int| 0 <= i < prev_h.len() && (#[trigger] prev_h[i]).1 == tt;
                        assert(h[i] == prev_h[i]);
                    }
                }
                assert forall|q: int| 0 <= q < p && (#[trigger] projectile_hit(expired, rows, n, q)) is Some implies exists|i: int| 0 <= i < h.len() && (#[trigger] h[i]).0 == q by {
                    if q == p - 1 {
                        assert(h[prev_h.len() as int].0 == q);
                    } else {
                        let i = choose|i: int| 0 <= i < prev_h.len() && (#[trigger] prev_h[i]).0 == q;
                        assert(h[i] == prev_h[i]);
                    }
                }
            },
            None => {
                assert(h == prev_h);
                assert(tk == prev_tk);
            },
        }
    }
}

/// Law: in one frame each target is struck by at most one projectile and each
/// projectile strikes at most one target; only projectiles still in range
/// strike, and only targets that their path meets.
pub proof fn law_projectile_hits_are_exclusive(expired: Seq<bool>, rows: Seq<Seq<bool>>, n: nat)
    requires
        table_fits(expired, rows, n),
    ensures
        ({
            let h = hits_upto(expired, rows, n, expired.len() as int);
            &&& forall|i: int| 0 <= i < h.len() ==> {
                &&& (#[trigger] h[i]).0 < expired.len()
                &&& h[i].1 < n
                &&& !expired[h[i].0 as int]
                &&& rows[h[i].0 as int][h[i].1 as int]
            }
            &&& forall|i: int, j: int| 0 <= i < j < h.len() ==> (#[trigger] h[i]).0 != (#[trigger] h[j]).0 && h[i].1 != h[j].1
        }),
{
    lemma_hits_inv(expired, rows, n, expired.len() as int);
}

/// Law: the targets marked for respawn are exactly the targets that some
/// projectile struck.
pub proof fn law_struck_targets_are_respawned(expired: Seq<bool>, rows: Seq<Seq<bool>>, n: nat, t: int)
    requires
        table_fits(expired, rows, n),
        0 <= t < n,
    ensures
        taken_after(expired, rows, n, expired.len() as int)[t] <==> exists|i: int|
            0 <= i < hits_upto(expired, rows, n, expired.len() as int).len()
            && (#[trigger] hits_upto(expired, rows, n, expired.len() as int)[i]).1 == t,
{
    lemma_hits_inv(expired, rows, n, expired.len() as int);
}

/// Law: a projectile stays in flight exactly when it is still in range and
/// struck nothing.
pub proof fn law_projectile_kept_iff_unspent(expired: Seq<bool>, rows: Seq<Seq<bool>>, n: nat, p: int)
    requires
        table_fits(expired, rows, n),
        0 <= p < expired.len(),
    ensures
        (!expired[p] && projectile_hit(expired, rows, n, p) is None) <==> !expired[p] && !exists|i: int|
            0 <= i < hits_upto(expired, rows, n, expired.len() as int).len()
            && (#[trigger] hits_upto(expired, rows, n, expired.len() as int)[i]).0 == p,
{
    lemma_hits_inv(expired, rows, n, expired.len() as int);
    let h = hits_upto(expired, rows, n, expired.len() as int);
    if exists|i: int| 0 <= i < h.len() && (#[trigger] h[i]).0 == p {
        let i = choose|i: int| 0 <= i < h.len() && (#[trigger] h[i]).0 == p;
        assert(projectile_hit(expired, rows, n, p) == Some(h[i].1 as int));
    }
}

proof fn lemma_taken_iff_struck_before(expired: Seq<bool>, rows: Seq<Seq<bool>>, n: nat, p: int)
    requires
        table_fits(expired, rows, n),
        0 <= p <= expired.len(),
    ensures
        taken_after(expired, rows, n, p).len() == n,
        forall|t: int| 0 <= t < n ==> (taken_after(expired, rows, n, p)[t] <==> exists|q: int|
            0 <= q < p && #[trigger] projectile_hit(expired, rows, n, q) == Some(t)),
        forall|q: int| 0 <= q < p ==> match #[trigger] projectile_hit(expired, rows, n, q) {
            Some(t) => 0 <= t < n,
            None => true,
        },
    decreases p,
{
    lemma_taken_len(expired, rows, n, p);
    if p > 0 {
        lemma_taken_iff_struck_before(expired, rows, n, p - 1);
        let prev = taken_after(expired, rows, n, p - 1);
        let cur = taken_after(expired, rows, n, p);
        assert(rows[p - 1].len() == n);
        lemma_first_open(prev, rows[p - 1], 0);
        let last = projectile_hit(expired, rows, n, p - 1);
        assert(last == claim(expired, rows, p - 1, prev));
        assert forall|t: int| 0 <= t < n implies (cur[t] <==> exists|q: int|
            0 <= q < p && #[trigger] projectile_hit(expired, rows, n, q) == Some(t)) by {
            if cur[t] {
                if last == Some(t) {
                    assert(projectile_hit(expired, rows, n, p - 1) == Some(t));
                } else {
                    assert(prev[t]);
                    let q = choose|q: int| 0 <= q < p - 1 && #[trigger] projectile_hit(expired, rows, n, q) == Some(t);
                    assert(projectile_hit(expired, rows, n, q) == Some(t));
                }
            }
            if exists|q: int| 0 <= q < p && #[trigger] projectile_hit(expired, rows, n, q) == Some(t) {
                let q = choose|q: int| 0 <= q < p && #[trigger] projectile_hit(expired, rows, n, q) == Some(t);
                if q < p - 1 {
                    assert(prev[t]);
                }
            }
        }
    }
}

/// Law: what one projectile does in a frame, in terms of the collision table
/// and the strikes of earlier projectiles. An expired projectile strikes
/// nothing. A live projectile strikes the lowest-numbered target that its path
/// meets and that no earlier projectile struck this frame; it strikes nothing
/// only when every target its path meets was already struck.
pub proof fn law_live_projectile_strikes_first_free_target(expired: Seq<bool>, rows: Seq<Seq<bool>>, n: nat, p: int)
    requires
        table_fits(expired, rows, n),
        0 <= p < expired.len(),
    ensures
        expired[p] ==> projectile_hit(expired, rows, n, p) is None,
        !expired[p] ==> match projectile_hit(expired, rows, n, p) {
            Some(t) => {
                &&& 0 <= t < n
                &&& rows[p][t]
                &&& !exists|q: int| 0 <= q < p && #[trigger] projectile_hit(expired, rows, n, q) == Some(t)
                &&& forall|u: int| 0 <= u < t && rows[p][u] ==> exists|q: int|
                    0 <= q < p && #[trigger] projectile_hit(expired, rows, n, q) == Some(u)
            },
            None => forall|u: int| 0 <= u < n && rows[p][u] ==> exists|q: int|
                0 <= q < p && #[trigger] projectile_hit(expired, rows, n, q) == Some(u),
        },
{
    lemma_taken_iff_struck_before(expired, rows, n, p);
    let taken = taken_after(expired, rows, n, p);
    assert(rows[p].len() == n);
    lemma_first_open(taken, rows[p], 0);
    if !expired[p] {
        let f = first_open_from(taken, rows[p], 0);
        if f < n {
            assert(projectile_hit(expired, rows, n, p) == Some(f));
            assert forall|u: int| 0 <= u < f && rows[p][u] implies exists|q: int|
                0 <= q < p && #[trigger] projectile_hit(expired, rows, n, q) == Some(u) by {
                assert(taken[u]);
            }
        } else {
            assert(projectile_hit(expired, rows, n, p) is None);
            assert forall|u: int| 0 <= u < n && rows[p][u] implies exists|q: int|
                0 <= q < p && #[trigger] projectile_hit(expired, rows, n, q) == Some(u) by {
                assert(taken[u]);
            }
        }
    }
}

/// Law: the list of hits records every strike of the frame, each once, in
/// projectile order: (p, t) is listed exactly when projectile `p` strikes
/// target `t`.
pub proof fn law_hits_list_every_strike(expired: Seq<bool>, rows: Seq<Seq<bool>>, n: nat)
    requires
        table_fits(expired, rows, n),
    ensures
        ({
            let h = hits_upto(expired, rows, n, expired.len() as int);
            &&& forall|q: int| 0 <= q < expired.len() ==> match #[trigger] projectile_hit(expired, rows, n, q) {
                Some(t) => exists|i: int| 0 <= i < h.len() && #[trigger] h[i] == (q as usize, t as usize),
                None => forall|i: int| 0 <= i < h.len() ==> (#[trigger] h[i]).0 != q,
            }
            &&& forall|i: int| 0 <= i < h.len() ==> 0 <= (#[trigger] h[i]).0 < expired.len()
                && projectile_hit(expired, rows, n, h[i].0 as int) == Some(h[i].1 as int)
            &&& forall|i: int, j: int| 0 <= i < j < h.len() ==> (#[trigger] h[i]).0 < (#[trigger] h[j]).0
        }),
{
    let len = expired.len() as int;
    lemma_hits_inv(expired, rows, n, len);
    let h = hits_upto(expired, rows, n, len);
    assert forall|q: int| 0 <= q < expired.len() implies match #[trigger] projectile_hit(expired, rows, n, q) {
        Some(t) => exists|i: int| 0 <= i < h.len() && #[trigger] h[i] == (q as usize, t as usize),
        None => forall|i: int| 0 <= i < h.len() ==> (#[trigger] h[i]).0 != q,
    } by {
        match projectile_hit(expired, rows, n, q) {
            Some(t) => {
                let i = choose|i: int| 0 <= i < h.len() && (#[trigger] h[i]).0 == q;
                assert(projectile_hit(expired, rows, n, h[i].0 as int) == Some(h[i].1 as int));
                assert(h[i] == (q as usize, t as usize));
            },
            None => {
                assert forall|i: int| 0 <= i < h.len() implies (#[trigger] h[i]).0 != q by {
                    assert(projectile_hit(expired, rows, n, h[i].0 as int) == Some(h[i].1 as int));
                }
            },
        }
    }
}

/// Settles one frame of projectile flight against the targets.
///
/// `expired[p]` tells whether projectile `p` has outlived its range;
/// `collides[p][t]` whether its path this frame meets target `t`. Projectiles
/// are taken in order: an expired one is dropped and hits nothing; any other
/// hits the first target it meets that no earlier projectile has hit this
/// frame, and is removed when it hits.
pub fn resolve_projectile_hits(expired: &Vec<bool>, collides: &Vec<Vec<bool>>, target_count: usize) -> (out: ProjectileResolution)
    requires
        table_fits(expired@, rows_view(collides@), target_count as nat),
        expired@.len() <= u32::MAX,
    ensures
        out.hit_targets@ == taken_after(expired@, rows_view(collides@), target_count as nat, expired@.len() as int),
        out.hits@ == hits_upto(expired@, rows_view(collides@), target_count as nat, expired@.len() as int),
        out.keep@.len() == expired@.len(),
        forall|p: int| 0 <= p < expired@.len() ==> #[trigger] out.keep@[p] == (!expired@[p] && projectile_hit(expired@, rows_view(collides@), target_count as nat, p) is None),
        out.expired_projectiles == count_true(expired@),
{
    let ghost rows = rows_view(collides@);
    let ghost n = target_count as nat;
    let mut hit_targets: Vec<bool> = Vec::new();
    let mut k: usize = 0;
    while k < target_count
        invariant
            k <= target_count,
            hit_targets@ == Seq::new(k as nat, |t: int| false),
        decreases target_count - k,
    {
        hit_targets.push(false);
        k = k + 1;
    }
    let mut hits: Vec<(usize, usize)> = Vec::new();
    let mut keep: Vec<bool> = Vec::new();
    let mut expired_count: u32 = 0;
    let mut p: usize = 0;
    while p < expired.len()
        invariant
            rows == rows_view(collides@),
            n == target_count,
            table_fits(expired@, rows, n),
            expired@.len() <= u32::MAX,
            p <= expired@.len(),
            hit_targets@ == taken_after(expired@, rows, n, p as int),
            hits@ == hits_upto(expired@, rows, n, p as int),
            keep@.len() == p,
            forall|q: int| 0 <= q < p ==> #[trigger] keep@[q] == (!expired@[q] && projectile_hit(expired@, rows, n, q) is None),
            expired_count == count_true(expired@.take(p as int)),
        decreases expired@.len() - p,
    {
        proof {
            lemma_taken_len(expired@, rows, n, p as int);
            assert(expired@.take(p + 1).drop_last() =~= expired@.take(p as int));
            lemma_count_true_bound(expired@.take(p as int));
        }
        let ghost prev = hit_targets@;
        if expired[p] {
            expired_count = expired_count + 1;
            keep.push(false);
        } else {
            let row = &collides[p];
            assert(row@ == rows[p as int]);
            let mut t: usize = 0;
            let mut found: Option<usize> = None;
            while t < target_count
                invariant_except_break
                    found is None,
                    forall|k: int| 0 <= k < t ==> !(!hit_targets@[k] && row@[k]),
                invariant
                    p < rows.len(),
                    row@ == rows[p as int],
                    row@.len() == target_count,
                    hit_targets@.len() == target_count,
                    t <= target_count,
                ensures
                    found is None ==> forall|k: int| 0 <= k < target_count ==> !(!hit_targets@[k] && row@[k]),
                    found matches Some(f) ==> f == first_open_from(hit_targets@, row@, 0) && f < target_count,
                decreases target_count - t,
            {
                if !hit_targets[t] && row[t] {
                    proof {
                        lemma_first_open(hit_targets@, row@, 0);
                    }
                    found = Some(t);
                    break;
                }
                t = t + 1;
            }
            proof {
                lemma_first_open(hit_targets@, row@, 0);
                if found is None {
                    let f = first_open_from(hit_targets@, row@, 0);
                    if f < target_count {
                        assert(!(!hit_targets@[f] && row@[f]));
                    }
                    assert(claim(expired@, rows, p as int, prev) is None);
                } else {
                    assert(claim(expired@, rows, p as int, prev) == Some(found->0 as int));
                }
            }
            match found {
                Some(f) => {
                    hit_targets.set(f, true);
                    hits.push((p, f));
                    keep.push(false);
                },
                None => {
                    keep.push(true);
                },
            }
        }
        p = p + 1;
    }
    proof {
        assert(expired@.take(p as int) =~= expired@);
    }
    ProjectileResolution { hits, hit_targets, keep, expired_projectiles: expired_count }
}

} // verus!
