//! Collision passes between lasers and ships.
use vstd::prelude::*;
use crate::geometry::{boxes_overlap, collide};
use crate::entity::{compact, enemies, is_enemy, lemma_compact_step, lemma_enemies_push, Entity, ExplosionToSpawn, Role};

verus! {

/// `e` has role `r` and a collision box.
pub open spec fn has_box(e: Entity, r: Role) -> bool {
    e.role == r && e.size is Some
}

/// The collision boxes of `a` and `b` overlap.
pub open spec fn touching(a: Entity, b: Entity) -> bool {
    boxes_overlap(a.pos, a.size->0, a.scale, b.pos, b.size->0, b.scale)
}

/// Entity `k` is an enemy not yet consumed whose box overlaps laser `i`'s.
pub open spec fn can_hit(s: Seq<Entity>, c: Seq<bool>, i: int, k: int) -> bool {
    has_box(s[k], Role::Enemy) && !c[k] && touching(s[i], s[k])
}

/// The first index from `j` on of an enemy that laser `i` can hit.
pub open spec fn first_target(s: Seq<Entity>, c: Seq<bool>, i: int, j: int) -> Option<int>
    decreases s.len() - j,
{
    if j < 0 || j >= s.len() {
        None
    } else if can_hit(s, c, i, j) {
        Some(j)
    } else {
        first_target(s, c, i, j + 1)
    }
}

/// The player-laser pass over the first `n` entities: which entities are
/// consumed, and the (laser, enemy) hits in order. Each player laser not yet
/// consumed takes the first unconsumed enemy that it overlaps, and both are
/// consumed.
pub open spec fn laser_pass(s: Seq<Entity>, n: nat) -> (Seq<bool>, Seq<(int, int)>)
    decreases n,
{
    if n == 0 {
        (Seq::new(s.len(), |k: int| false), Seq::empty())
    } else {
        let (c, h) = laser_pass(s, (n - 1) as nat);
        let i = n - 1;
        if has_box(s[i], Role::PlayerLaser) && !c[i] {
            match first_target(s, c, i, 0) {
                Some(k) => (c.update(i, true).update(k, true), h.push((i, k))),
                None => (c, h),
            }
        } else {
            (c, h)
        }
    }
}

/// The entities that are not consumed, in order.
pub open spec fn kept(s: Seq<Entity>, c: Seq<bool>) -> Seq<Entity> {
    compact(Seq::new(s.len(), |k: int| if c[k] { None } else { Some(s[k]) }))
}

/// Explosion requests at the hit enemies' positions, in the order of the hits.
pub open spec fn requests(s: Seq<Entity>, h: Seq<(int, int)>) -> Seq<ExplosionToSpawn> {
    h.map_values(|p: (int, int)| ExplosionToSpawn(s[p.1].pos))
}

pub proof fn lemma_first_target(s: Seq<Entity>, c: Seq<bool>, i: int, j: int)
    requires
        0 <= j,
    ensures
        first_target(s, c, i, j) matches Some(k) ==> j <= k < s.len() && can_hit(s, c, i, k),
    decreases s.len() - j,
{
    if j < s.len() && !can_hit(s, c, i, j) {
        lemma_first_target(s, c, i, j + 1);
    }
}

/// Every hit pairs a player laser among the first `n` entities with an enemy
/// whose boxes overlap; no laser and no enemy occurs in two hits; an entity
/// is consumed exactly when it occurs in a hit.
pub open spec fn consumed_once(s: Seq<Entity>, n: int, c: Seq<bool>, h: Seq<(int, int)>) -> bool {
    &&& c.len() == s.len()
    &&& forall|a: int| 0 <= a < h.len() ==> {
        &&& 0 <= #[trigger] h[a].0 < n
        &&& 0 <= h[a].1 < s.len()
        &&& has_box(s[h[a].0], Role::PlayerLaser)
        &&& has_box(s[h[a].1], Role::Enemy)
        &&& touching(s[h[a].0], s[h[a].1])
    }
    &&& forall|a: int, b: int| 0 <= a < b < h.len() ==>
        #[trigger] h[a].0 != #[trigger] h[b].0 && h[a].1 != h[b].1
    &&& forall|x: int| 0 <= x < s.len() ==>
        (#[trigger] c[x] <==> exists|a: int| 0 <= a < h.len() && (h[a].0 == x || h[a].1 == x))
}

/// A collision pass never destroys an entity twice: each hit takes one
/// player laser and one enemy that overlap, none of them twice, and exactly
/// the entities of the hits are consumed.
pub proof fn lemma_laser_pass_consumes_once(s: Seq<Entity>, n: nat)
    requires
        n <= s.len(),
    ensures
        consumed_once(s, n as int, laser_pass(s, n).0, laser_pass(s, n).1),
    decreases n,
{
    if n > 0 {
        lemma_laser_pass_consumes_once(s, (n - 1) as nat);
        let c = laser_pass(s, (n - 1) as nat).0;
        let h = laser_pass(s, (n - 1) as nat).1;
        let i = n - 1;
        assert(consumed_once(s, n as int, c, h));
        if has_box(s[i], Role::PlayerLaser) && !c[i] {
            lemma_first_target(s, c, i, 0);
            match first_target(s, c, i, 0) {
                Some(k) => {
                    let c2 = c.update(i, true).update(k, true);
                    let h2 = h.push((i, k));
                    assert(laser_pass(s, n) == (c2, h2));
                    assert forall|a: int, b: int| 0 <= a < b < h2.len() implies
                        #[trigger] h2[a].0 != #[trigger] h2[b].0 && h2[a].1 != h2[b].1 by {
                        assert(h2[a] == h[a]);
                        if b == h.len() {
                            if h[a].0 == i || h[a].1 == k {
                                assert(c[h[a].0] && c[h[a].1]);
                            }
                        } else {
                            assert(h2[b] == h[b]);
                        }
                    }
                    assert forall|x: int| 0 <= x < s.len() implies
                        (#[trigger] c2[x] <==> exists|a: int| 0 <= a < h2.len() && (h2[a].0 == x || h2[a].1 == x)) by {
                        if c2[x] {
                            if x == i || x == k {
                                assert(h2[h.len() as int] == (i, k));
                            } else {
                                assert(c[x]);
                                let a = choose|a: int| 0 <= a < h.len() && (h[a].0 == x || h[a].1 == x);
                                assert(h2[a] == h[a]);
                            }
                        }
                        if exists|a: int| 0 <= a < h2.len() && (h2[a].0 == x || h2[a].1 == x) {
                            let a = choose|a: int| 0 <= a < h2.len() && (h2[a].0 == x || h2[a].1 == x);
                            if a < h.len() {
                                assert(h2[a] == h[a]);
                                assert(c[x]);
                            }
                        }
                    }
                    assert forall|a: int| 0 <= a < h2.len() implies {
                        &&& 0 <= #[trigger] h2[a].0 < n
                        &&& 0 <= h2[a].1 < s.len()
                        &&& has_box(s[h2[a].0], Role::PlayerLaser)
                        &&& has_box(s[h2[a].1], Role::Enemy)
                        &&& touching(s[h2[a].0], s[h2[a].1])
                    } by {
                        if a < h.len() {
                            assert(h2[a] == h[a]);
                        }
                    }
                    assert(consumed_once(s, n as int, c2, h2));
                },
                None => {},
            }
        }
    }
}

fn has_box_exec(e: &Entity, r: Role) -> (b: bool)
    ensures
        b == has_box(*e, r),
{
    e.role == r && e.size.is_some()
}

fn touching_exec(a: &Entity, b: &Entity) -> (r: bool)
    requires
        a.size is Some,
        b.size is Some,
    ensures
        r == touching(*a, *b),
{
    collide(a.pos, a.size.unwrap(), a.scale, b.pos, b.size.unwrap(), b.scale)
}

/// Runs the player-laser pass and returns the entities that remain and the
/// explosion requests at the destroyed enemies' positions, in hit order.
pub fn player_laser_hit_enemy(s: &Vec<Entity>) -> (r: (Vec<Entity>, Vec<ExplosionToSpawn>))
    ensures
        r.0@ == kept(s@, laser_pass(s@, s@.len()).0),
        r.1@ == requests(s@, laser_pass(s@, s@.len()).1),
{
    let n = s.len();
    let mut consumed: Vec<bool> = Vec::new();
    let mut j: usize = 0;
    while j < n
        invariant
            j <= n,
            n == s@.len(),
            consumed@ == Seq::new(j as nat, |k: int| false),
        decreases n - j,
    {
        consumed.push(false);
        j += 1;
    }
    assert(consumed@ =~= laser_pass(s@, 0).0);
    let mut out: Vec<ExplosionToSpawn> = Vec::new();
    let mut i: usize = 0;
    while i < n
        invariant
            i <= n,
            n == s@.len(),
            consumed@ == laser_pass(s@, i as nat).0,
            out@ == requests(s@, laser_pass(s@, i as nat).1),
        decreases n - i,
    {
        proof {
            lemma_laser_pass_consumes_once(s@, i as nat);
        }
        let ghost c0 = consumed@;
        let ghost h0 = laser_pass(s@, i as nat).1;
        if has_box_exec(&s[i], Role::PlayerLaser) && !consumed[i] {
            let mut k: usize = 0;
            let mut found: Option<usize> = None;
            while k < n && found.is_none()
                invariant
                    k <= n,
                    n == s@.len(),
                    consumed@ == c0,
                    c0.len() == n,
                    s@[i as int].size is Some,
                    0 <= i < n,
                    found is None ==> first_target(s@, c0, i as int, 0) == first_target(s@, c0, i as int, k as int),
                    found matches Some(t) ==> first_target(s@, c0, i as int, 0) == Some(t as int) && t < n,
                decreases n - k + (if found is None { 1int } else { 0int }),
            {
                if has_box_exec(&s[k], Role::Enemy) && !consumed[k] && touching_exec(&s[i], &s[k]) {
                    found = Some(k);
                } else {
                    k += 1;
                }
            }
            match found {
                Some(t) => {
                    consumed.set(i, true);
                    consumed.set(t, true);
                    out.push(ExplosionToSpawn(s[t].pos));
                    assert(out@ =~= requests(s@, laser_pass(s@, (i + 1) as nat).1));
                },
                None => {},
            }
        }
        i += 1;
    }
    proof {
        lemma_laser_pass_consumes_once(s@, n as nat);
    }
    let kept_v = keep_unconsumed(s, &consumed);
    (kept_v, out)
}

/// The entities whose flag in `c` is not set, in order.
pub fn keep_unconsumed(s: &Vec<Entity>, c: &Vec<bool>) -> (r: Vec<Entity>)
    requires
        c@.len() == s@.len(),
    ensures
        r@ == kept(s@, c@),
{
    let n = s.len();
    let ghost m = Seq::new(s@.len(), |k: int| if c@[k] { None } else { Some(s@[k]) });
    let mut kept_v: Vec<Entity> = Vec::new();
    let mut q: usize = 0;
    while q < n
        invariant
            q <= n,
            n == s@.len(),
            c@.len() == n,
            m == Seq::new(s@.len(), |k: int| if c@[k] { None } else { Some(s@[k]) }),
            kept_v@ == compact(m.take(q as int)),
        decreases n - q,
    {
        proof {
            lemma_compact_step(m, q as int);
        }
        if !c[q] {
            kept_v.push(s[q]);
        }
        q += 1;
    }
    assert(m.take(n as int) =~= m);
    kept_v
}

/// The first index from `j` on of a player with a collision box.
pub open spec fn first_player_from(s: Seq<Entity>, j: int) -> Option<int>
    decreases s.len() - j,
{
    if j < 0 || j >= s.len() {
        None
    } else if has_box(s[j], Role::Player) {
        Some(j)
    } else {
        first_player_from(s, j + 1)
    }
}

/// The index of the player, where exactly one entity is a player with a
/// collision box.
pub open spec fn single_player(s: Seq<Entity>) -> Option<int> {
    match first_player_from(s, 0) {
        Some(p) => if first_player_from(s, p + 1) is None { Some(p) } else { None },
        None => None,
    }
}

/// The first index from `j` on of an enemy laser whose box overlaps entity `p`'s.
pub open spec fn first_laser_on(s: Seq<Entity>, p: int, j: int) -> Option<int>
    decreases s.len() - j,
{
    if j < 0 || j >= s.len() {
        None
    } else if has_box(s[j], Role::EnemyLaser) && touching(s[j], s[p]) {
        Some(j)
    } else {
        first_laser_on(s, p, j + 1)
    }
}

/// The enemy-laser pass: with a single player, the first enemy laser that
/// overlaps it, as (player, laser); no hit without a single player.
pub open spec fn player_hit(s: Seq<Entity>) -> Option<(int, int)> {
    match single_player(s) {
        Some(p) => match first_laser_on(s, p, 0) {
            Some(l) => Some((p, l)),
            None => None,
        },
        None => None,
    }
}

fn find_player_from(s: &Vec<Entity>, j: usize) -> (r: Option<usize>)
    requires
        j <= s@.len(),
    ensures
        r matches Some(p) ==> first_player_from(s@, j as int) == Some(p as int) && p < s@.len()
            && has_box(s@[p as int], Role::Player),
        r is None ==> first_player_from(s@, j as int) is None,
{
    let mut k: usize = j;
    while k < s.len()
        invariant
            j <= k <= s@.len(),
            first_player_from(s@, j as int) == first_player_from(s@, k as int),
        decreases s.len() - k,
    {
        if has_box_exec(&s[k], Role::Player) {
            return Some(k);
        }
        k += 1;
    }
    None
}

/// Finds the single player with a collision box, if there is exactly one.
pub fn find_single_player(s: &Vec<Entity>) -> (r: Option<usize>)
    ensures
        r matches Some(p) ==> single_player(s@) == Some(p as int) && p < s@.len()
            && has_box(s@[p as int], Role::Player),
        r is None ==> single_player(s@) is None,
{
    let p = match find_player_from(s, 0) {
        Some(p) => p,
        None => return None,
    };
    assert(p < s.len());
    if find_player_from(s, p + 1).is_some() {
        return None;
    }
    Some(p)
}

/// Finds the hit of the enemy-laser pass: the single player and the first
/// enemy laser that overlaps it, as (player index, laser index).
pub fn enemy_laser_hit_player(s: &Vec<Entity>) -> (r: Option<(usize, usize)>)
    ensures
        r matches Some(pl) ==> player_hit(s@) == Some((pl.0 as int, pl.1 as int))
            && pl.0 < s@.len() && pl.1 < s@.len()
            && s@[pl.0 as int].role == Role::Player && s@[pl.1 as int].role == Role::EnemyLaser,
        r is None ==> player_hit(s@) is None,
{
    let p = match find_single_player(s) {
        Some(p) => p,
        None => return None,
    };
    let mut k: usize = 0;
    while k < s.len()
        invariant
            k <= s@.len(),
            p < s@.len(),
            s@[p as int].size is Some,
            s@[p as int].role == Role::Player,
            single_player(s@) == Some(p as int),
            first_laser_on(s@, p as int, 0) == first_laser_on(s@, p as int, k as int),
        decreases s.len() - k,
    {
        if has_box_exec(&s[k], Role::EnemyLaser) && touching_exec(&s[k], &s[p]) {
            return Some((p, k));
        }
        k += 1;
    }
    None
}

/// The number of enemies of `s` whose flag in `c` is set.
pub open spec fn consumed_enemies(s: Seq<Entity>, c: Seq<bool>) -> nat
    decreases c.len(),
{
    if c.len() == 0 {
        0
    } else {
        consumed_enemies(s, c.drop_last()) + if c.last() && is_enemy(s[c.len() - 1]) { 1nat } else { 0nat }
    }
}

pub proof fn lemma_consumed_none(s: Seq<Entity>, n: nat)
    ensures
        consumed_enemies(s, Seq::new(n, |k: int| false)) == 0,
    decreases n,
{
    if n > 0 {
        assert(Seq::new(n, |k: int| false).drop_last() =~= Seq::new((n - 1) as nat, |k: int| false));
        lemma_consumed_none(s, (n - 1) as nat);
    }
}

pub proof fn lemma_consumed_update(s: Seq<Entity>, c: Seq<bool>, j: int)
    requires
        0 <= j < c.len(),
        !c[j],
    ensures
        consumed_enemies(s, c.update(j, true)) == consumed_enemies(s, c) + if is_enemy(s[j]) { 1nat } else { 0nat },
    decreases c.len(),
{
    let u = c.update(j, true);
    if j == c.len() - 1 {
        assert(u.drop_last() =~= c.drop_last());
    } else {
        assert(u.drop_last() =~= c.drop_last().update(j, true));
        lemma_consumed_update(s, c.drop_last(), j);
    }
}

/// Removing the flagged entities leaves the enemies that were not flagged.
pub proof fn lemma_kept_enemies(s: Seq<Entity>, c: Seq<bool>)
    requires
        c.len() == s.len(),
    ensures
        enemies(kept(s, c)) + consumed_enemies(s, c) == enemies(s),
{
    let m = Seq::new(s.len(), |k: int| if c[k] { None } else { Some(s[k]) });
    lemma_kept_prefix(s, c, m, s.len() as int);
    assert(m.take(s.len() as int) =~= m);
    assert(c.take(s.len() as int) =~= c);
    assert(s.take(s.len() as int) =~= s);
}

proof fn lemma_kept_prefix(s: Seq<Entity>, c: Seq<bool>, m: Seq<Option<Entity>>, n: int)
    requires
        c.len() == s.len(),
        m == Seq::new(s.len(), |k: int| if c[k] { None } else { Some(s[k]) }),
        0 <= n <= s.len(),
    ensures
        enemies(compact(m.take(n))) + consumed_enemies(s, c.take(n)) == enemies(s.take(n)),
    decreases n,
{
    if n > 0 {
        lemma_kept_prefix(s, c, m, n - 1);
        lemma_compact_step(m, n - 1);
        assert(c.take(n).drop_last() =~= c.take(n - 1));
        assert(s.take(n).drop_last() =~= s.take(n - 1));
        if !c[n - 1] {
            lemma_enemies_push(compact(m.take(n - 1)), s[n - 1]);
        }
    }
}

/// The player-laser pass consumes one enemy per hit.
pub proof fn lemma_laser_pass_count(s: Seq<Entity>, n: nat)
    requires
        n <= s.len(),
    ensures
        consumed_enemies(s, laser_pass(s, n).0) == laser_pass(s, n).1.len(),
    decreases n,
{
    if n == 0 {
        lemma_consumed_none(s, s.len());
    } else {
        lemma_laser_pass_count(s, (n - 1) as nat);
        lemma_laser_pass_consumes_once(s, (n - 1) as nat);
        let c = laser_pass(s, (n - 1) as nat).0;
        let i = n - 1;
        if has_box(s[i], Role::PlayerLaser) && !c[i] {
            lemma_first_target(s, c, i, 0);
            match first_target(s, c, i, 0) {
                Some(k) => {
                    lemma_consumed_update(s, c, i);
                    lemma_consumed_update(s, c.update(i, true), k);
                },
                None => {},
            }
        }
    }
}

} // verus!
