use vstd::prelude::*;
use crate::animation::explosion_at;
use crate::constants::{PLAYER_MAX_ARMOR, PLAYER_MAX_HEALTH};
use crate::game::{GameView, ids_distinct, strike_state};
use crate::pickup::{Pickup, PickupSpawnSystem};
use crate::player::PlayerView;
use crate::projectile::Projectile;
use crate::rules::{
    Moves, Revival, collect, moved, moves, revive, thinks, aims_at, credit_kills, killer, meeting_tile, Collection, lemma_collect_keeps, first_with_id, lemma_first_alive_at, lemma_first_with_id_found, hits_terrain, lemma_strikes, struck,
    Strike, ahead, all_blasts, blocked, collide, empty_tiles, first_alive_at, flown, lemma_empty_tiles,
    lemma_first_free_unblocked, pair_blasts, plan, preference, spawn_attempt, strike, strikes, survives,
};
use crate::transform::step;
use crate::wall::{Wall, damaged, grid_wf, in_grid, solid, tile_at, variant_at};

verus! {

/// In a consistent game every combatant is alive exactly while its health
/// is above zero, and its health and armor stay within their configured
/// maximums. Every operation on a game keeps it consistent.
pub proof fn lemma_combatant_bounds(g: GameView)
    requires
        g.wf(),
    ensures
        forall|i: int|
            0 <= i < g.players.len() ==> (#[trigger] g.players[i]).alive == (g.players[i].health > 0)
                && g.players[i].health <= g.players[i].max_health && g.players[i].armor
                <= g.players[i].max_armor && g.players[i].health <= PLAYER_MAX_HEALTH
                && g.players[i].armor <= PLAYER_MAX_ARMOR,
{
    assert forall|i: int| 0 <= i < g.players.len() implies (#[trigger] g.players[i]).alive == (
    g.players[i].health > 0) && g.players[i].health <= g.players[i].max_health && g.players[i].armor
        <= g.players[i].max_armor && g.players[i].health <= PLAYER_MAX_HEALTH
        && g.players[i].armor <= PLAYER_MAX_ARMOR by {
        assert(g.players[i].inv());
    }
}

/// The projectiles in flight after a resolution are, in order and one tile
/// on, those that fly on through terrain and combatants and meet no other
/// such projectile. Whether a projectile flies on is judged against the
/// game at the start of the pass alone, so it does not depend on the order
/// of the projectiles.
pub proof fn lemma_resolved_flights(g: GameView)
    requires
        g.wf(),
    ensures
        g.projectiles_resolved().bullets == flown(g.bullets, g.strike_flags(), g.bullets.len() as int),
{
    let n = g.bullets.len() as int;
    let s0 = strike_state(g, Seq::empty());
    lemma_strikes(s0, g.bullets, g.columns as int, g.rows as int, n);
    assert(strikes(s0, g.bullets, g.columns as int, g.rows as int, n).keep =~= g.strike_flags());
}

/// A projectile that enters a tile that was brick at the start of the
/// pass is removed, and the tile ends the pass empty, however many
/// projectiles enter it.
pub proof fn lemma_brick_hit(g: GameView, i: int)
    requires
        g.wf(),
        0 <= i < g.bullets.len(),
        in_grid(ahead(g.bullets[i]), g.columns as int, g.rows as int),
        variant_at(g.walls, ahead(g.bullets[i])) is Brick,
    ensures
        variant_at(g.projectiles_resolved().walls, ahead(g.bullets[i])) is Empty,
        !survives(g.bullets, g.strike_flags(), i),
{
    let n = g.bullets.len() as int;
    let c = g.columns as int;
    let r = g.rows as int;
    let s0 = strike_state(g, Seq::empty());
    lemma_strikes(s0, g.bullets, c, r, n);
    let t = ahead(g.bullets[i]);
    let x = t[0] as int;
    let y = t[1] as int;
    assert(t =~= [x as i32, y as i32]);
    assert(hits_terrain(g.walls, g.bullets[i], c, r));
    assert(struck(g.walls, g.bullets, c, r, n, [x as i32, y as i32]));
    assert(tile_at(strikes(s0, g.bullets, c, r, n).walls, x, y).variant == damaged(tile_at(g.walls, x, y).variant));
}

/// A projectile that enters a tile that was concrete or border at the
/// start of the pass is removed, and the tile keeps its kind.
pub proof fn lemma_hard_hit(g: GameView, i: int)
    requires
        g.wf(),
        0 <= i < g.bullets.len(),
        in_grid(ahead(g.bullets[i]), g.columns as int, g.rows as int),
        variant_at(g.walls, ahead(g.bullets[i])) is Concrete || variant_at(g.walls, ahead(g.bullets[i])) is Border,
    ensures
        variant_at(g.projectiles_resolved().walls, ahead(g.bullets[i])) == variant_at(g.walls, ahead(g.bullets[i])),
        !survives(g.bullets, g.strike_flags(), i),
{
    let n = g.bullets.len() as int;
    let c = g.columns as int;
    let r = g.rows as int;
    let s0 = strike_state(g, Seq::empty());
    lemma_strikes(s0, g.bullets, c, r, n);
    let t = ahead(g.bullets[i]);
    let x = t[0] as int;
    let y = t[1] as int;
    assert(t =~= [x as i32, y as i32]);
    assert(tile_at(strikes(s0, g.bullets, c, r, n).walls, x, y).variant == tile_at(g.walls, x, y).variant);
}

/// A projectile aimed at a combatant that is still alive, with no armor
/// and one health point, kills it: its health drops to zero and it loses
/// a life.
pub proof fn lemma_last_hit_kills(
    s: Strike,
    b: Projectile,
    walls0: Seq<Seq<Wall>>,
    players0: Seq<PlayerView>,
    columns: int,
    rows: int,
)
    requires
        in_grid(ahead(b), columns, rows),
        !solid(variant_at(walls0, ahead(b))),
        first_alive_at(players0, ahead(b), 0) < players0.len(),
        s.players.len() == players0.len(),
        s.players[first_alive_at(players0, ahead(b), 0)].alive,
        s.players[first_alive_at(players0, ahead(b), 0)].armor == 0,
        s.players[first_alive_at(players0, ahead(b), 0)].health == 1,
        s.players[first_alive_at(players0, ahead(b), 0)].inv(),
    ensures
        ({
            let k = first_alive_at(players0, ahead(b), 0);
            let r = strike(s, b, walls0, players0, columns, rows);
            &&& r.players[k].health == 0
            &&& !r.players[k].alive
            &&& r.players[k].lives == s.players[k].lives - 1
        }),
{
    lemma_first_alive_at(players0, ahead(b), 0);
}

/// The id a kill is credited to is the lowest owner id among the
/// projectiles aimed at the victim: there is one exactly when some
/// projectile is aimed at it, and which one it is depends on the set of
/// projectiles, not on their order.
pub proof fn lemma_killer_is_lowest(
    walls0: Seq<Seq<Wall>>,
    players0: Seq<PlayerView>,
    bs: Seq<Projectile>,
    columns: int,
    rows: int,
    k: int,
    n: int,
)
    requires
        0 <= n <= bs.len(),
    ensures
        killer(walls0, players0, bs, columns, rows, k, n) is None <==> forall|m: int|
            0 <= m < n ==> !#[trigger] aims_at(walls0, players0, bs[m], columns, rows, k),
        killer(walls0, players0, bs, columns, rows, k, n) matches Some(id) ==> (exists|m: int|
            0 <= m < n && #[trigger] aims_at(walls0, players0, bs[m], columns, rows, k) && bs[m].owner_id == id)
            && (forall|m: int| 0 <= m < n && #[trigger] aims_at(walls0, players0, bs[m], columns, rows, k) ==> id <= bs[m].owner_id),
    decreases n,
{
    if n > 0 {
        lemma_killer_is_lowest(walls0, players0, bs, columns, rows, k, n - 1);
        let prev = killer(walls0, players0, bs, columns, rows, k, n - 1);
        if prev is Some && aims_at(walls0, players0, bs[n - 1], columns, rows, k) {
            let id = prev->Some_0;
            let m0 = choose|m: int| 0 <= m < n - 1 && #[trigger] aims_at(walls0, players0, bs[m], columns, rows, k) && bs[m].owner_id == id;
            assert(aims_at(walls0, players0, bs[m0], columns, rows, k));
        }
        if prev is None && aims_at(walls0, players0, bs[n - 1], columns, rows, k) {
            assert(aims_at(walls0, players0, bs[n - 1], columns, rows, k));
        }
    }
}

proof fn lemma_one_kill_credit(
    ps: Seq<PlayerView>,
    walls0: Seq<Seq<Wall>>,
    players0: Seq<PlayerView>,
    bs: Seq<Projectile>,
    columns: int,
    rows: int,
    victim: int,
    owner: int,
    n: int,
)
    requires
        ps.len() == players0.len(),
        ids_distinct(ps),
        0 <= victim < ps.len(),
        0 <= owner < ps.len(),
        players0[victim].alive,
        !ps[victim].alive,
        killer(walls0, players0, bs, columns, rows, victim, bs.len() as int) == Some(ps[owner].id),
        forall|j: int| 0 <= j < ps.len() && j != victim ==> !(#[trigger] players0[j].alive && !ps[j].alive),
        0 <= n <= ps.len(),
    ensures
        credit_kills(ps, walls0, players0, bs, columns, rows, n) == if n > victim {
            ps.update(owner, ps[owner].credited())
        } else {
            ps
        },
    decreases n,
{
    if n > 0 {
        lemma_one_kill_credit(ps, walls0, players0, bs, columns, rows, victim, owner, n - 1);
        if n - 1 == victim {
            lemma_first_with_id_found(ps, ps[owner].id, 0, owner);
            let c = first_with_id(ps, ps[owner].id, 0);
            if c != owner {
                assert(ps[c].id != ps[owner].id);
            }
        }
    }
}

/// When a single combatant dies in a pass, the combatant whose id is the
/// lowest owner id among the projectiles aimed at it gains exactly one
/// kill, and nobody else's kill count changes.
pub proof fn lemma_kill_credited(
    ps: Seq<PlayerView>,
    walls0: Seq<Seq<Wall>>,
    players0: Seq<PlayerView>,
    bs: Seq<Projectile>,
    columns: int,
    rows: int,
    victim: int,
    owner: int,
)
    requires
        ps.len() == players0.len(),
        ids_distinct(ps),
        0 <= victim < ps.len(),
        0 <= owner < ps.len(),
        players0[victim].alive,
        !ps[victim].alive,
        killer(walls0, players0, bs, columns, rows, victim, bs.len() as int) == Some(ps[owner].id),
        forall|j: int| 0 <= j < ps.len() && j != victim ==> !(#[trigger] players0[j].alive && !ps[j].alive),
    ensures
        credit_kills(ps, walls0, players0, bs, columns, rows, ps.len() as int) == ps.update(owner, ps[owner].credited()),
{
    lemma_one_kill_credit(ps, walls0, players0, bs, columns, rows, victim, owner, ps.len() as int);
}

proof fn lemma_no_kill_no_credit(
    ps: Seq<PlayerView>,
    walls0: Seq<Seq<Wall>>,
    players0: Seq<PlayerView>,
    bs: Seq<Projectile>,
    columns: int,
    rows: int,
    n: int,
)
    requires
        ps == players0,
    ensures
        credit_kills(ps, walls0, players0, bs, columns, rows, n) == ps,
    decreases n,
{
    if n > 0 {
        lemma_no_kill_no_credit(ps, walls0, players0, bs, columns, rows, n - 1);
    }
}

/// Two projectiles that meet explode at the same tile whichever of them
/// comes first in the list.
pub proof fn lemma_meeting_tile_symmetric(a: Projectile, b: Projectile)
    ensures
        meeting_tile(a, b) == meeting_tile(b, a),
{
    if crate::rules::tile_le(ahead(a), ahead(b)) && crate::rules::tile_le(ahead(b), ahead(a)) {
        assert(ahead(a) =~= ahead(b));
    }
}

/// Two projectiles still in flight that meet are both removed.
pub proof fn lemma_meeting_both_removed(bs: Seq<Projectile>, keep: Seq<bool>, i: int, j: int)
    requires
        0 <= i < bs.len(),
        0 <= j < bs.len(),
        i != j,
        keep[i],
        keep[j],
        collide(bs[i], bs[j]),
    ensures
        !survives(bs, keep, i),
        !survives(bs, keep, j),
{
    assert(collide(bs[j], bs[i]));
}

/// The only two projectiles of a game entering the same free tile, which
/// no living combatant holds, are both removed in one resolution, with
/// exactly one explosion at that tile; terrain and combatants stay.
pub proof fn lemma_meeting_pair(g: GameView)
    requires
        g.wf(),
        g.bullets.len() == 2,
        ahead(g.bullets[0]) == ahead(g.bullets[1]),
        in_grid(ahead(g.bullets[0]), g.columns as int, g.rows as int),
        !solid(variant_at(g.walls, ahead(g.bullets[0]))),
        first_alive_at(g.players, ahead(g.bullets[0]), 0) == g.players.len(),
    ensures
        g.projectiles_resolved().bullets.len() == 0,
        g.projectiles_resolved().animations == g.animations.push(explosion_at(ahead(g.bullets[0]))),
        g.projectiles_resolved().walls == g.walls,
        g.projectiles_resolved().players == g.players,
{
    let bs = g.bullets;
    let c = g.columns as int;
    let r = g.rows as int;
    let s0 = Strike { walls: g.walls, players: g.players, animations: g.animations, keep: Seq::empty() };
    let s1 = strikes(s0, bs, c, r, 1);
    assert(strikes(s0, bs, c, r, 0) == s0);
    assert(s1 == strike(s0, bs[0], g.walls, g.players, c, r));
    assert(s1.keep == seq![true]);
    let s2 = strikes(s0, bs, c, r, 2);
    assert(s2 == strike(s1, bs[1], g.walls, g.players, c, r));
    assert(s2.keep =~= seq![true, true]);
    let keep = s2.keep;
    assert(collide(bs[0], bs[1]));
    lemma_meeting_both_removed(bs, keep, 0, 1);
    assert(flown(bs, keep, 0) =~= Seq::<Projectile>::empty());
    assert(flown(bs, keep, 1) =~= Seq::<Projectile>::empty());
    assert(flown(bs, keep, 2) =~= Seq::<Projectile>::empty());
    assert(pair_blasts(bs, keep, 0, 1) =~= Seq::empty());
    assert(meeting_tile(bs[0], bs[1]) == ahead(bs[0]));
    assert(pair_blasts(bs, keep, 0, 2) =~= seq![explosion_at(ahead(bs[0]))]);
    assert(pair_blasts(bs, keep, 1, 2) =~= Seq::empty());
    assert(all_blasts(bs, keep, 0) =~= Seq::empty());
    assert(all_blasts(bs, keep, 1) =~= seq![explosion_at(ahead(bs[0]))]);
    assert(all_blasts(bs, keep, 2) =~= seq![explosion_at(ahead(bs[0]))]);
    assert(s2.animations + all_blasts(bs, keep, 2) =~= g.animations.push(explosion_at(ahead(bs[0]))));
    assert(s2.players == g.players);
    lemma_no_kill_no_credit(g.players, g.walls, g.players, bs, c, r, g.players.len() as int);
}

/// A pickup spawns only onto a tile of the grid that is empty at spawn
/// time; the pickups already lying stay as they were.
pub proof fn lemma_spawn_on_empty(g: GameView, dt: u64, first_draw: usize, second_draw: usize)
    requires
        grid_wf(g.walls, g.columns as int),
        g.walls.len() == g.rows,
    ensures
        ({
            let r = g.pickups_spawned(dt, first_draw, second_draw);
            &&& r.walls == g.walls
            &&& r.pickups.len() >= g.pickups.len()
            &&& r.pickups.subrange(0, g.pickups.len() as int) == g.pickups
            &&& forall|k: int|
                g.pickups.len() <= k < r.pickups.len() ==> in_grid(
                    (#[trigger] r.pickups[k]).position,
                    g.columns as int,
                    g.rows as int,
                ) && (variant_at(g.walls, r.pickups[k].position) is Empty)
        }),
{
    lemma_empty_tiles(g.walls, g.columns as int);
    let e = empty_tiles(g.walls);
    let r = g.pickups_spawned(dt, first_draw, second_draw);
    let s0 = PickupSpawnSystem { elapsed: crate::pickup::sat_add(g.spawners[0].elapsed, dt), ..g.spawners[0] };
    let a = spawn_attempt(g.pickups, s0, g.walls, g.max_pickups as int, first_draw);
    let s1 = PickupSpawnSystem { elapsed: crate::pickup::sat_add(g.spawners[1].elapsed, dt), ..g.spawners[1] };
    let b = spawn_attempt(a.0, s1, g.walls, g.max_pickups as int, second_draw);
    if e.len() > 0 {
        let k0 = first_draw as int % e.len() as int;
        let k1 = second_draw as int % e.len() as int;
        assert(in_grid(e[k0], g.columns as int, g.rows as int));
        assert(in_grid(e[k1], g.columns as int, g.rows as int));
    }
    assert(a.0.subrange(0, g.pickups.len() as int) =~= g.pickups);
    assert(b.0.subrange(0, a.0.len() as int) =~= a.0);
    assert(r.pickups.subrange(0, g.pickups.len() as int) =~= g.pickups);
}

/// While playing, with the human alive or holding a life and no opponent
/// alive, the judgement of the phase gives a win.
pub proof fn lemma_won_when_opponents_down(g: GameView)
    requires
        g.wf(),
        g.state is Playing,
        g.players[0].alive,
        forall|i: int| 1 <= i < g.players.len() ==> !(#[trigger] g.players[i]).alive,
    ensures
        g.judged().state is Won,
{
}

/// After a whole frame every pickup lying on the grid either was already
/// lying there before, or was spawned in this frame onto a tile of the grid
/// that was empty at the time.
pub proof fn lemma_frame_pickups_on_empty(g: GameView, dt: u64, first_draw: usize, second_draw: usize)
    requires
        g.wf(),
    ensures
        forall|k: int|
            0 <= k < g.framed(dt, first_draw, second_draw).pickups.len() ==> ({
                let p = #[trigger] g.framed(dt, first_draw, second_draw).pickups[k];
                g.pickups.contains(p) || (in_grid(p.position, g.columns as int, g.rows as int) && (variant_at(
                    g.walls,
                    p.position,
                ) is Empty))
            }),
{
    let x0 = g.clock_advanced(dt).animations_advanced(dt).reloads_advanced(dt);
    let x1 = x0.bots_thought(dt);
    assert(x1.walls == g.walls && x1.pickups == g.pickups && x1.columns == g.columns && x1.rows == g.rows);
    let a = x1.pickups_spawned(dt, first_draw, second_draw);
    let spawned_ok = |p: Pickup| g.pickups.contains(p) || (in_grid(p.position, g.columns as int, g.rows as int) && (variant_at(g.walls, p.position) is Empty));
    assert forall|k: int| 0 <= k < a.pickups.len() implies #[trigger] spawned_ok(a.pickups[k]) by {
        lemma_spawn_on_empty(x1, dt, first_draw, second_draw);
        if k < g.pickups.len() {
            assert(a.pickups.subrange(0, g.pickups.len() as int)[k] == a.pickups[k]);
            assert(g.pickups[k] == a.pickups[k]);
        }
    }
    let b0 = GameView { last_update: a.accumulated, ..a };
    let m = b0.moved_all().revived_all();
    assert(m.pickups == a.pickups);
    let c = m.collected_all();
    lemma_collect_keeps(Collection { players: m.players, pickups: Seq::empty() }, m.pickups, m.pickups.len() as int);
    assert forall|k: int| 0 <= k < c.pickups.len() implies #[trigger] spawned_ok(c.pickups[k]) by {
        let j = choose|j: int| 0 <= j < m.pickups.len() && m.pickups[j] == #[trigger] c.pickups[k];
        assert(spawned_ok(a.pickups[j]));
    }
    let f = g.framed(dt, first_draw, second_draw);
    assert forall|k: int| 0 <= k < f.pickups.len() implies spawned_ok(#[trigger] f.pickups[k]) by {
        if a.tick_due() {
            assert(f.pickups == c.projectiles_resolved().pickups);
            assert(spawned_ok(c.pickups[k]));
        } else {
            assert(f.pickups == a.pickups);
            assert(spawned_ok(a.pickups[k]));
        }
    }
}

/// The direction an opponent plans never leads off the grid, into a solid
/// tile, or onto a tile another living combatant holds.
pub proof fn lemma_plan_unblocked(
    walls: Seq<Seq<Wall>>,
    columns: int,
    rows: int,
    ps: Seq<PlayerView>,
    i: int,
    target: [i32; 2],
)
    ensures
        plan(walls, columns, rows, ps, i, target) matches Some(d) ==> !blocked(
            walls,
            columns,
            rows,
            ps,
            i,
            step(d, ps[i].position),
        ),
{
    let me = ps[i].position;
    lemma_first_free_unblocked(walls, columns, rows, ps, i, preference(target[0] - me[0], target[1] - me[1]), 0);
}

/// Only the human is alive, on the grid, and no opponent holds a life.
pub open spec fn lone_human(ps: Seq<PlayerView>, columns: int, rows: int) -> bool {
    &&& ps.len() >= 1
    &&& ps[0].alive
    &&& in_grid(ps[0].position, columns, rows)
    &&& forall|i: int| 1 <= i < ps.len() ==> !(#[trigger] ps[i]).alive && ps[i].lives == 0
}

proof fn lemma_lone_moves(m: Moves, walls: Seq<Seq<Wall>>, columns: int, rows: int, n: int)
    requires
        lone_human(m.players, columns, rows),
        m.bullets.len() == 0,
        0 <= n <= m.players.len(),
        columns <= 255,
        rows <= 255,
    ensures
        ({
            let r = moves(m, walls, columns, rows, n);
            &&& lone_human(r.players, columns, rows)
            &&& r.players.len() == m.players.len()
            &&& forall|k: int| 0 <= k < r.bullets.len() ==> (#[trigger] r.bullets[k]).position == r.players[0].position
        }),
    decreases n,
{
    if n > 0 {
        lemma_lone_moves(m, walls, columns, rows, n - 1);
        let p = moves(m, walls, columns, rows, n - 1);
        let r = moves(m, walls, columns, rows, n);
        if n - 1 >= 1 {
            assert(!p.players[n - 1].alive);
            assert(r == p);
        } else {
            assert(p == m);
            let q = moved(walls, columns, rows, p.players, 0);
            assert(in_grid(q.position, columns, rows));
            assert forall|i: int| 1 <= i < r.players.len() implies !(#[trigger] r.players[i]).alive && r.players[i].lives == 0 by {
                assert(r.players[i] == p.players[i]);
            }
        }
    }
}

proof fn lemma_lone_revive(r: Revival, n: int)
    requires
        r.players.len() >= 1,
        r.players[0].alive,
        forall|i: int| 1 <= i < r.players.len() ==> !(#[trigger] r.players[i]).alive && r.players[i].lives == 0,
        0 <= n <= r.players.len(),
    ensures
        revive(r, n).players == r.players,
    decreases n,
{
    if n > 0 {
        lemma_lone_revive(r, n - 1);
        if n - 1 >= 1 {
            assert(!r.players[n - 1].alive && r.players[n - 1].lives == 0);
        }
    }
}

proof fn lemma_lone_collect(c: Collection, pks: Seq<Pickup>, n: int)
    requires
        0 <= n <= pks.len(),
    ensures
        collect(c, pks, n).players.len() == c.players.len(),
        forall|i: int|
            0 <= i < c.players.len() ==> (#[trigger] collect(c, pks, n).players[i]).alive == c.players[i].alive
                && collect(c, pks, n).players[i].lives == c.players[i].lives && collect(c, pks, n).players[i].position
                == c.players[i].position,
    decreases n,
{
    if n > 0 {
        lemma_lone_collect(c, pks, n - 1);
        let prev = collect(c, pks, n - 1);
        lemma_first_alive_at(prev.players, pks[n - 1].position, 0);
        let k = first_alive_at(prev.players, pks[n - 1].position, 0);
        assert forall|i: int| 0 <= i < c.players.len() implies (#[trigger] collect(c, pks, n).players[i]).alive == c.players[i].alive
            && collect(c, pks, n).players[i].lives == c.players[i].lives && collect(c, pks, n).players[i].position
            == c.players[i].position by {
            assert(prev.players[i].alive == c.players[i].alive);
        }
    }
}

proof fn lemma_nobody_at(ps: Seq<PlayerView>, p: [i32; 2], t: [i32; 2], j: int)
    requires
        t != p,
        forall|i: int| 0 <= i < ps.len() && (#[trigger] ps[i]).alive ==> ps[i].position == p,
        0 <= j,
    ensures
        first_alive_at(ps, t, j) == ps.len(),
    decreases ps.len() - j,
{
    if j < ps.len() {
        lemma_nobody_at(ps, p, t, j + 1);
    }
}

proof fn lemma_strikes_spare_players(s0: Strike, bs: Seq<Projectile>, columns: int, rows: int, n: int)
    requires
        forall|m: int| 0 <= m < n ==> first_alive_at(s0.players, ahead(#[trigger] bs[m]), 0) == s0.players.len(),
    ensures
        strikes(s0, bs, columns, rows, n).players == s0.players,
    decreases n,
{
    if n > 0 {
        lemma_strikes_spare_players(s0, bs, columns, rows, n - 1);
        assert(first_alive_at(s0.players, ahead(bs[n - 1]), 0) == s0.players.len());
    }
}

/// While playing, with the human alive, every opponent dead with no life
/// left and no projectile in flight, the next frame ends in a win.
pub proof fn lemma_won_frame(g: GameView, dt: u64, first_draw: usize, second_draw: usize)
    requires
        g.wf(),
        g.state is Playing,
        g.bullets.len() == 0,
        g.players[0].alive,
        forall|i: int| 1 <= i < g.players.len() ==> !(#[trigger] g.players[i]).alive && g.players[i].lives == 0,
    ensures
        g.framed(dt, first_draw, second_draw).state is Won,
{
    let cols = g.columns as int;
    let rows = g.rows as int;
    assert(g.players[0].inv() && in_grid(g.players[0].position, cols, rows));
    let x = g.clock_advanced(dt).animations_advanced(dt).reloads_advanced(dt);
    assert(lone_human(x.players, cols, rows)) by {
        assert forall|i: int| 1 <= i < x.players.len() implies !(#[trigger] x.players[i]).alive && x.players[i].lives == 0 by {
            assert(!g.players[i].alive);
        }
    }
    let y = x.bots_thought(dt);
    assert(y.players =~= x.players) by {
        assert forall|i: int| 0 <= i < x.players.len() implies !thinks(x.players, x.brains, i) by {
            if i >= 1 {
                assert(!x.players[i].alive);
            }
        }
    }
    let z = y.pickups_spawned(dt, first_draw, second_draw);
    assert(z.players == x.players && z.bullets.len() == 0 && z.state is Playing);
    if z.tick_due() {
        let w = GameView { last_update: z.accumulated, ..z };
        lemma_lone_moves(Moves { players: w.players, bullets: w.bullets }, w.walls, cols, rows, w.players.len() as int);
        let m = w.moved_all();
        lemma_lone_revive(Revival { players: m.players, animations: m.animations }, m.players.len() as int);
        let r = m.revived_all();
        assert(r.players == m.players);
        lemma_lone_collect(Collection { players: r.players, pickups: Seq::empty() }, r.pickups, r.pickups.len() as int);
        let c = r.collected_all();
        assert(lone_human(c.players, cols, rows)) by {
            assert(c.players[0].alive == r.players[0].alive);
            assert forall|i: int| 1 <= i < c.players.len() implies !(#[trigger] c.players[i]).alive && c.players[i].lives == 0 by {
                assert(c.players[i].alive == r.players[i].alive);
            }
        }
        let hp = c.players[0].position;
        assert forall|k: int| 0 <= k < c.bullets.len() implies first_alive_at(c.players, ahead(#[trigger] c.bullets[k]), 0) == c.players.len() by {
            let b = c.bullets[k];
            assert(b.position == hp);
            assert(ahead(b) != hp) by {
                if ahead(b) == hp {
                    assert(ahead(b)[0] == hp[0] && ahead(b)[1] == hp[1]);
                }
            }
            assert forall|i: int| 0 <= i < c.players.len() && (#[trigger] c.players[i]).alive implies c.players[i].position == hp by {
                if i >= 1 {
                    assert(!c.players[i].alive);
                }
            }
            lemma_nobody_at(c.players, hp, ahead(b), 0);
        }
        let s0 = strike_state(c, Seq::empty());
        lemma_strikes_spare_players(s0, c.bullets, cols, rows, c.bullets.len() as int);
        lemma_no_kill_no_credit(c.players, c.walls, c.players, c.bullets, cols, rows, c.players.len() as int);
        let p = c.projectiles_resolved();
        assert(p.players == c.players);
        assert(!p.opponent_alive());
    } else {
        assert(!z.opponent_alive());
    }
}

} // verus!
