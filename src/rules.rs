use vstd::prelude::*;
use crate::animation::{AnimationView, explosion_at, spawn_marker_at};
use crate::constants::{BOT_FIRE_COOLDOWN, BOT_THINK_INTERVAL};
use crate::game::BotBrain;
use crate::pickup::{Pickup, PickupSpawnSystem, PickupType};
use crate::player::PlayerView;
use crate::projectile::Projectile;
use crate::transform::{LookDirection, step};
use crate::wall::{Wall, damaged, grid_wf, in_grid, solid, tile_at, variant_at, with_tile};

verus! {

/// Index of the first living combatant at `t`, searching from `j`; the
/// number of combatants if there is none.
pub open spec fn first_alive_at(ps: Seq<PlayerView>, t: [i32; 2], j: int) -> int
    decreases ps.len() - j,
{
    if j < 0 || j >= ps.len() {
        ps.len() as int
    } else if ps[j].alive && ps[j].position == t {
        j
    } else {
        first_alive_at(ps, t, j + 1)
    }
}

pub proof fn lemma_first_alive_at(ps: Seq<PlayerView>, t: [i32; 2], j: int)
    requires
        0 <= j,
    ensures
        j <= first_alive_at(ps, t, j) <= ps.len() || (j > ps.len() && first_alive_at(ps, t, j) == ps.len()),
        first_alive_at(ps, t, j) < ps.len() ==> ps[first_alive_at(ps, t, j)].alive && ps[first_alive_at(ps, t, j)].position == t,
    decreases ps.len() - j,
{
    if j < ps.len() && !(ps[j].alive && ps[j].position == t) {
        lemma_first_alive_at(ps, t, j + 1);
    }
}

pub proof fn lemma_first_with_id(ps: Seq<PlayerView>, id: u32, j: int)
    requires
        0 <= j,
    ensures
        first_with_id(ps, id, j) <= ps.len(),
        first_with_id(ps, id, j) >= 0,
        first_with_id(ps, id, j) < ps.len() ==> ps[first_with_id(ps, id, j)].id == id,
    decreases ps.len() - j,
{
    if j < ps.len() && ps[j].id != id {
        lemma_first_with_id(ps, id, j + 1);
    }
}

/// Index of the first combatant with `id`, searching from `j`; the number
/// of combatants if there is none.
pub open spec fn first_with_id(ps: Seq<PlayerView>, id: u32, j: int) -> int
    decreases ps.len() - j,
{
    if j < 0 || j >= ps.len() {
        ps.len() as int
    } else if ps[j].id == id {
        j
    } else {
        first_with_id(ps, id, j + 1)
    }
}

/// What projectiles change while they strike terrain and combatants, and
/// which of them are still in flight afterwards.
pub struct Strike {
    pub walls: Seq<Seq<Wall>>,
    pub players: Seq<PlayerView>,
    pub animations: Seq<AnimationView>,
    pub keep: Seq<bool>,
}

/// The tile a projectile enters next.
pub open spec fn ahead(b: Projectile) -> [i32; 2] {
    step(b.direction, b.position)
}

/// Projectile `b` meets solid terrain: the tile it enters was solid when
/// the pass began.
pub open spec fn hits_terrain(walls0: Seq<Seq<Wall>>, b: Projectile, columns: int, rows: int) -> bool {
    in_grid(ahead(b), columns, rows) && solid(variant_at(walls0, ahead(b)))
}

/// Projectile `b` stays in flight through terrain and combatants: the tile
/// it enters was on the grid, not solid, and held no living combatant when
/// the pass began.
pub open spec fn flies_on(walls0: Seq<Seq<Wall>>, players0: Seq<PlayerView>, b: Projectile, columns: int, rows: int) -> bool {
    in_grid(ahead(b), columns, rows) && !solid(variant_at(walls0, ahead(b))) && first_alive_at(
        players0,
        ahead(b),
        0,
    ) == players0.len()
}

/// One projectile against terrain and combatants, judged against the
/// terrain `walls0` and combatants `players0` as they were when the pass
/// began, so that the order of projectiles does not decide their fate:
/// leaving the grid removes it; entering a tile that was solid hits that
/// tile (a brick turns empty once, later hits find it empty), shows an
/// explosion and removes the projectile; entering a tile where a combatant
/// was alive hits the first such combatant if it is still alive, shows an
/// explosion and removes the projectile; otherwise it stays in flight.
/// Kills are credited afterwards (see `credit_kills`).
pub open spec fn strike(
    s: Strike,
    b: Projectile,
    walls0: Seq<Seq<Wall>>,
    players0: Seq<PlayerView>,
    columns: int,
    rows: int,
) -> Strike {
    let t = ahead(b);
    if !in_grid(t, columns, rows) {
        Strike { keep: s.keep.push(false), ..s }
    } else if solid(variant_at(walls0, t)) {
        let w = tile_at(s.walls, t[0] as int, t[1] as int);
        Strike {
            walls: with_tile(s.walls, t[0] as int, t[1] as int, Wall { variant: damaged(w.variant), ..w }),
            animations: s.animations.push(explosion_at(t)),
            keep: s.keep.push(false),
            ..s
        }
    } else {
        let k = first_alive_at(players0, t, 0);
        if k < players0.len() {
            let ps2 = if s.players[k].alive {
                s.players.update(k, s.players[k].hit())
            } else {
                s.players
            };
            Strike {
                players: ps2,
                animations: s.animations.push(explosion_at(t)),
                keep: s.keep.push(false),
                ..s
            }
        } else {
            Strike { keep: s.keep.push(true), ..s }
        }
    }
}

/// The first `n` projectiles of `bs` striking in order, against the
/// terrain and combatants `s` holds at the start of the pass.
pub open spec fn strikes(s: Strike, bs: Seq<Projectile>, columns: int, rows: int, n: int) -> Strike
    decreases n,
{
    if n <= 0 {
        s
    } else {
        strike(strikes(s, bs, columns, rows, n - 1), bs[n - 1], s.walls, s.players, columns, rows)
    }
}

/// Some of the first `n` projectiles of `bs` hit the tile `p` that was
/// solid when the pass began.
pub open spec fn struck(walls0: Seq<Seq<Wall>>, bs: Seq<Projectile>, columns: int, rows: int, n: int, p: [i32; 2]) -> bool {
    exists|m: int| 0 <= m < n && #[trigger] hits_terrain(walls0, bs[m], columns, rows) && ahead(bs[m]) == p
}

/// Collection only removes pickups: each one left lying is one of those
/// collected over.
pub proof fn lemma_collect_keeps(c: Collection, pks: Seq<Pickup>, n: int)
    requires
        c.pickups.len() == 0,
        0 <= n <= pks.len(),
    ensures
        forall|k: int|
            0 <= k < collect(c, pks, n).pickups.len() ==> exists|m: int|
                0 <= m < n && pks[m] == #[trigger] collect(c, pks, n).pickups[k],
    decreases n,
{
    if n > 0 {
        lemma_collect_keeps(c, pks, n - 1);
        let prev = collect(c, pks, n - 1);
        let cur = collect(c, pks, n);
        assert forall|k: int| 0 <= k < cur.pickups.len() implies exists|m: int| 0 <= m < n && pks[m] == #[trigger] cur.pickups[k] by {
            if k < prev.pickups.len() {
                assert(cur.pickups[k] == prev.pickups[k]);
                let m = choose|m: int| 0 <= m < n - 1 && pks[m] == #[trigger] prev.pickups[k];
                assert(pks[m] == cur.pickups[k]);
            } else {
                assert(cur.pickups[k] == pks[n - 1]);
            }
        }
    }
}

pub proof fn lemma_first_with_id_found(ps: Seq<PlayerView>, id: u32, j: int, c: int)
    requires
        0 <= j <= c < ps.len(),
        ps[c].id == id,
    ensures
        j <= first_with_id(ps, id, j) <= c,
        ps[first_with_id(ps, id, j)].id == id,
    decreases c - j,
{
    if ps[j].id != id {
        lemma_first_with_id_found(ps, id, j + 1, c);
    }
}

/// What the strikes of a pass leave: each projectile's flag says whether
/// it flies on, judged against the start of the pass alone; a tile that
/// some projectile hit holds `damaged` of its kind at the start, every
/// other tile is unchanged; the line-up keeps its length.
pub proof fn lemma_strikes(s0: Strike, bs: Seq<Projectile>, columns: int, rows: int, n: int)
    requires
        grid_wf(s0.walls, columns),
        s0.walls.len() == rows,
        s0.keep.len() == 0,
        0 <= n <= bs.len(),
        columns <= 255,
        rows <= 255,
    ensures
        ({
            let r = strikes(s0, bs, columns, rows, n);
            &&& r.keep.len() == n
            &&& forall|m: int| 0 <= m < n ==> #[trigger] r.keep[m] == flies_on(s0.walls, s0.players, bs[m], columns, rows)
            &&& r.walls.len() == rows
            &&& grid_wf(r.walls, columns)
            &&& r.players.len() == s0.players.len()
            &&& forall|x: int, y: int|
                0 <= x < columns && 0 <= y < rows ==> #[trigger] tile_at(r.walls, x, y) == if struck(
                    s0.walls,
                    bs,
                    columns,
                    rows,
                    n,
                    [x as i32, y as i32],
                ) {
                    Wall { variant: damaged(tile_at(s0.walls, x, y).variant), ..tile_at(s0.walls, x, y) }
                } else {
                    tile_at(s0.walls, x, y)
                }
        }),
    decreases n,
{
    if n > 0 {
        lemma_strikes(s0, bs, columns, rows, n - 1);
        let p = strikes(s0, bs, columns, rows, n - 1);
        let r = strikes(s0, bs, columns, rows, n);
        let b = bs[n - 1];
        let t = ahead(b);
        assert(r == strike(p, b, s0.walls, s0.players, columns, rows));
        lemma_first_alive_at(s0.players, t, 0);
        assert(r.keep[n - 1] == flies_on(s0.walls, s0.players, b, columns, rows));
        let k = first_alive_at(s0.players, t, 0);
        if 0 <= k < p.players.len() {
            lemma_first_with_id(p.players.update(k, p.players[k].hit()), b.owner_id, 0);
        }
        assert(r.players.len() == s0.players.len());
        assert forall|m: int| 0 <= m < n implies #[trigger] r.keep[m] == flies_on(s0.walls, s0.players, bs[m], columns, rows) by {
            if m < n - 1 {
                assert(r.keep[m] == p.keep[m]);
            }
        }
        if hits_terrain(s0.walls, b, columns, rows) {
            let tx = t[0] as int;
            let ty = t[1] as int;
            assert(p.walls[ty].len() == columns);
            assert forall|x: int, y: int| 0 <= x < columns && 0 <= y < rows implies #[trigger] tile_at(r.walls, x, y) == if struck(
                s0.walls,
                bs,
                columns,
                rows,
                n,
                [x as i32, y as i32],
            ) {
                Wall { variant: damaged(tile_at(s0.walls, x, y).variant), ..tile_at(s0.walls, x, y) }
            } else {
                tile_at(s0.walls, x, y)
            } by {
                assert(tile_at(p.walls, x, y) == tile_at(p.walls, x, y));
                if x == tx && y == ty {
                    assert(t =~= [x as i32, y as i32]);
                    assert(struck(s0.walls, bs, columns, rows, n, [x as i32, y as i32]));
                } else {
                    assert(p.walls[y].len() == columns);
                    assert(tile_at(r.walls, x, y) == tile_at(p.walls, x, y));
                    if struck(s0.walls, bs, columns, rows, n, [x as i32, y as i32]) {
                        let m = choose|m: int| 0 <= m < n && #[trigger] hits_terrain(s0.walls, bs[m], columns, rows) && ahead(bs[m]) == [x as i32, y as i32];
                        if m == n - 1 {
                            assert(t[0] == x as i32);
                        }
                        assert(struck(s0.walls, bs, columns, rows, n - 1, [x as i32, y as i32]));
                    }
                }
            }
            assert forall|x: int, y: int|
                0 <= y < r.walls.len() && 0 <= x < columns implies (#[trigger] tile_at(r.walls, x, y)).position == [x as i32, y as i32] by {
                assert(tile_at(p.walls, x, y).position == [x as i32, y as i32]);
                assert(tile_at(s0.walls, x, y).position == [x as i32, y as i32]);
            }
            assert forall|y: int| 0 <= y < r.walls.len() implies (#[trigger] r.walls[y].len()) == columns by {
                assert(p.walls[y].len() == columns);
            }
            assert(grid_wf(r.walls, columns));
            assert(r.walls.len() == rows);
        } else {
            assert(r.walls == p.walls);
            assert forall|x: int, y: int| 0 <= x < columns && 0 <= y < rows implies #[trigger] tile_at(r.walls, x, y) == if struck(
                s0.walls,
                bs,
                columns,
                rows,
                n,
                [x as i32, y as i32],
            ) {
                Wall { variant: damaged(tile_at(s0.walls, x, y).variant), ..tile_at(s0.walls, x, y) }
            } else {
                tile_at(s0.walls, x, y)
            } by {
                assert(tile_at(p.walls, x, y) == tile_at(p.walls, x, y));
                if struck(s0.walls, bs, columns, rows, n, [x as i32, y as i32]) {
                    let m = choose|m: int| 0 <= m < n && #[trigger] hits_terrain(s0.walls, bs[m], columns, rows) && ahead(bs[m]) == [x as i32, y as i32];
                    assert(struck(s0.walls, bs, columns, rows, n - 1, [x as i32, y as i32]));
                }
            }
        }
    }
}

/// Projectile `b` is aimed at combatant `k`: it enters, through no solid
/// terrain, the tile where `k` was the first living combatant when the
/// pass began.
pub open spec fn aims_at(walls0: Seq<Seq<Wall>>, players0: Seq<PlayerView>, b: Projectile, columns: int, rows: int, k: int) -> bool {
    in_grid(ahead(b), columns, rows) && !solid(variant_at(walls0, ahead(b))) && first_alive_at(players0, ahead(b), 0) == k
}

/// The lowest owner id among the first `n` projectiles aimed at combatant
/// `k`, if any is.
pub open spec fn killer(
    walls0: Seq<Seq<Wall>>,
    players0: Seq<PlayerView>,
    bs: Seq<Projectile>,
    columns: int,
    rows: int,
    k: int,
    n: int,
) -> Option<u32>
    decreases n,
{
    if n <= 0 {
        None
    } else {
        let prev = killer(walls0, players0, bs, columns, rows, k, n - 1);
        let b = bs[n - 1];
        if aims_at(walls0, players0, b, columns, rows, k) {
            match prev {
                None => Some(b.owner_id),
                Some(id) => Some(if id < b.owner_id { id } else { b.owner_id }),
            }
        } else {
            prev
        }
    }
}

/// The kill credits of a pass over the first `n` combatants: each
/// combatant alive when the pass began and dead after the strikes `ps`
/// credits one kill to the combatant whose id is the lowest owner id among
/// the projectiles aimed at it. This depends on the set of projectiles,
/// not on their order.
pub open spec fn credit_kills(
    ps: Seq<PlayerView>,
    walls0: Seq<Seq<Wall>>,
    players0: Seq<PlayerView>,
    bs: Seq<Projectile>,
    columns: int,
    rows: int,
    n: int,
) -> Seq<PlayerView>
    decreases n,
{
    if n <= 0 {
        ps
    } else {
        let prev = credit_kills(ps, walls0, players0, bs, columns, rows, n - 1);
        let j = n - 1;
        match killer(walls0, players0, bs, columns, rows, j, bs.len() as int) {
            Some(id) => {
                let c = first_with_id(ps, id, 0);
                if players0[j].alive && !ps[j].alive && 0 <= c < prev.len() {
                    prev.update(c, prev[c].credited())
                } else {
                    prev
                }
            },
            None => prev,
        }
    }
}

/// `p` comes no later than `q` row by row.
pub open spec fn tile_le(p: [i32; 2], q: [i32; 2]) -> bool {
    p[1] < q[1] || (p[1] == q[1] && p[0] <= q[0])
}

/// Where two meeting projectiles explode: the first, row by row, of the
/// tiles they enter, which depends on the pair and not on its order.
pub open spec fn meeting_tile(a: Projectile, b: Projectile) -> [i32; 2] {
    if tile_le(ahead(a), ahead(b)) {
        ahead(a)
    } else {
        ahead(b)
    }
}

/// Two projectiles meet: they enter the same tile, or one enters the tile
/// the other is leaving.
pub open spec fn collide(a: Projectile, b: Projectile) -> bool {
    ahead(a) == ahead(b) || ahead(a) == b.position || ahead(b) == a.position
}

/// Projectile `i` meets another projectile that is still in flight.
pub open spec fn shot_down(bs: Seq<Projectile>, keep: Seq<bool>, i: int) -> bool {
    exists|j: int| 0 <= j < bs.len() && j != i && #[trigger] keep[j] && collide(bs[i], bs[j])
}

/// Projectile `i` is in flight after the whole resolution.
pub open spec fn survives(bs: Seq<Projectile>, keep: Seq<bool>, i: int) -> bool {
    keep[i] && !shot_down(bs, keep, i)
}

/// One explosion for each meeting pair `(i, k)` with `i < k < j`, at the
/// pair's meeting tile.
pub open spec fn pair_blasts(bs: Seq<Projectile>, keep: Seq<bool>, i: int, j: int) -> Seq<AnimationView>
    decreases j - i,
{
    if j <= i + 1 {
        Seq::empty()
    } else {
        pair_blasts(bs, keep, i, j - 1) + if keep[i] && keep[j - 1] && collide(bs[i], bs[j - 1]) {
            seq![explosion_at(meeting_tile(bs[i], bs[j - 1]))]
        } else {
            Seq::empty()
        }
    }
}

/// The explosions of all meeting pairs whose first member is below `n`.
pub open spec fn all_blasts(bs: Seq<Projectile>, keep: Seq<bool>, n: int) -> Seq<AnimationView>
    decreases n,
{
    if n <= 0 {
        Seq::empty()
    } else {
        all_blasts(bs, keep, n - 1) + pair_blasts(bs, keep, n - 1, bs.len() as int)
    }
}

/// The survivors among the first `n` projectiles, each one tile on.
pub open spec fn flown(bs: Seq<Projectile>, keep: Seq<bool>, n: int) -> Seq<Projectile>
    decreases n,
{
    if n <= 0 {
        Seq::empty()
    } else {
        flown(bs, keep, n - 1) + if survives(bs, keep, n - 1) {
            seq![Projectile { position: ahead(bs[n - 1]), ..bs[n - 1] }]
        } else {
            Seq::empty()
        }
    }
}

/// A living combatant other than `i` stands on `t`.
pub open spec fn occupied_by_other(ps: Seq<PlayerView>, i: int, t: [i32; 2]) -> bool {
    exists|j: int| 0 <= j < ps.len() && j != i && #[trigger] ps[j].alive && ps[j].position == t
}

/// Combatant `i` cannot enter `t`: it is off the grid, solid, or taken by
/// another living combatant.
pub open spec fn blocked(walls: Seq<Seq<Wall>>, columns: int, rows: int, ps: Seq<PlayerView>, i: int, t: [i32; 2]) -> bool {
    !in_grid(t, columns, rows) || solid(variant_at(walls, t)) || occupied_by_other(ps, i, t)
}

/// Combatant `i` after its move: its previous position becomes the current
/// one; with a movement intent it turns that way and steps unless blocked.
pub open spec fn moved(walls: Seq<Seq<Wall>>, columns: int, rows: int, ps: Seq<PlayerView>, i: int) -> PlayerView {
    let p = PlayerView { previous: ps[i].position, ..ps[i] };
    match p.pressed() {
        None => p,
        Some(d) => {
            let t = step(d, p.position);
            PlayerView {
                position: if blocked(walls, columns, rows, ps, i, t) {
                    p.position
                } else {
                    t
                },
                direction: d,
                ..p
            }
        },
    }
}

/// A combatant that wants to fire and has reloaded.
pub open spec fn fires(p: PlayerView) -> bool {
    p.firing && !p.reloading()
}

/// Combatants and projectiles during the movement pass.
pub struct Moves {
    pub players: Seq<PlayerView>,
    pub bullets: Seq<Projectile>,
}

/// Combatant `i`'s turn of the movement pass: a living combatant moves,
/// then fires if it can, adding a projectile at its tile and facing.
pub open spec fn move_one(m: Moves, walls: Seq<Seq<Wall>>, columns: int, rows: int, i: int) -> Moves {
    if !m.players[i].alive {
        m
    } else {
        let p = moved(walls, columns, rows, m.players, i);
        if fires(p) {
            Moves {
                players: m.players.update(i, PlayerView { reload: 0, ..p }),
                bullets: m.bullets.push(Projectile { owner_id: p.id, position: p.position, direction: p.direction }),
            }
        } else {
            Moves { players: m.players.update(i, p), ..m }
        }
    }
}

/// The movement pass over the first `n` combatants, in id order.
pub open spec fn moves(m: Moves, walls: Seq<Seq<Wall>>, columns: int, rows: int, n: int) -> Moves
    decreases n,
{
    if n <= 0 {
        m
    } else {
        move_one(moves(m, walls, columns, rows, n - 1), walls, columns, rows, n - 1)
    }
}

/// A dead combatant with a life left that asserts fire comes back.
pub open spec fn respawns(p: PlayerView) -> bool {
    !p.alive && p.firing && p.lives > 0
}

/// Combatants and animations during the respawn pass.
pub struct Revival {
    pub players: Seq<PlayerView>,
    pub animations: Seq<AnimationView>,
}

/// The respawn pass over the first `n` combatants: each one that respawns
/// returns to its spawn tile and a spawn marker shows there.
pub open spec fn revive(r: Revival, n: int) -> Revival
    decreases n,
{
    if n <= 0 {
        r
    } else {
        let prev = revive(r, n - 1);
        let p = prev.players[n - 1];
        if respawns(p) {
            Revival {
                players: prev.players.update(n - 1, p.respawned()),
                animations: prev.animations.push(spawn_marker_at(p.spawn)),
            }
        } else {
            prev
        }
    }
}

/// A combatant after collecting a pickup: one more point of its kind, up
/// to the maximum.
pub open spec fn boosted(p: PlayerView, kind: PickupType) -> PlayerView {
    match kind {
        PickupType::Armor => PlayerView {
            armor: if p.armor < p.max_armor {
                (p.armor + 1) as u32
            } else {
                p.max_armor
            },
            ..p
        },
        PickupType::Health => PlayerView {
            health: if p.health < p.max_health {
                (p.health + 1) as u32
            } else {
                p.max_health
            },
            ..p
        },
    }
}

/// Combatants and the pickups left lying during collection.
pub struct Collection {
    pub players: Seq<PlayerView>,
    pub pickups: Seq<Pickup>,
}

/// Collection over the first `n` pickups of `pks`: the first living
/// combatant on a pickup's tile takes it; a pickup nobody stands on stays.
pub open spec fn collect(c: Collection, pks: Seq<Pickup>, n: int) -> Collection
    decreases n,
{
    if n <= 0 {
        c
    } else {
        let prev = collect(c, pks, n - 1);
        let pk = pks[n - 1];
        let k = first_alive_at(prev.players, pk.position, 0);
        if k < prev.players.len() {
            Collection { players: prev.players.update(k, boosted(prev.players[k], pk.variant)), ..prev }
        } else {
            Collection { pickups: prev.pickups.push(pk), ..prev }
        }
    }
}

/// The empty tiles among the first `n` of row `y`, in order.
pub open spec fn empties_in_row(row: Seq<Wall>, y: int, n: int) -> Seq<[i32; 2]>
    decreases n,
{
    if n <= 0 {
        Seq::empty()
    } else {
        empties_in_row(row, y, n - 1) + if row[n - 1].variant is Empty {
            seq![[(n - 1) as i32, y as i32]]
        } else {
            Seq::empty()
        }
    }
}

/// The empty tiles of the first `m` rows, row by row.
pub open spec fn empties_upto(walls: Seq<Seq<Wall>>, m: int) -> Seq<[i32; 2]>
    decreases m,
{
    if m <= 0 {
        Seq::empty()
    } else {
        empties_upto(walls, m - 1) + empties_in_row(walls[m - 1], m - 1, walls[m - 1].len() as int)
    }
}

/// Every empty tile of the grid, row by row.
pub open spec fn empty_tiles(walls: Seq<Seq<Wall>>) -> Seq<[i32; 2]> {
    empties_upto(walls, walls.len() as int)
}

/// A spawner's attempt once its timer has run: at capacity nothing is
/// placed; else a pickup of its kind goes on the empty tile that `draw`
/// picks; either way the timer restarts. Before that, nothing happens.
pub open spec fn spawn_attempt(
    pickups: Seq<Pickup>,
    sp: PickupSpawnSystem,
    walls: Seq<Seq<Wall>>,
    max_pickups: int,
    draw: usize,
) -> (Seq<Pickup>, PickupSpawnSystem) {
    if sp.elapsed < sp.spawn_time {
        (pickups, sp)
    } else {
        let restarted = PickupSpawnSystem { elapsed: 0, ..sp };
        let e = empty_tiles(walls);
        if pickups.len() >= max_pickups || e.len() == 0 {
            (pickups, restarted)
        } else {
            (pickups.push(Pickup { variant: sp.variant, position: e[draw as int % e.len() as int] }), restarted)
        }
    }
}

/// The first `n` animations after `dt`, without those that finished.
pub open spec fn advance_all(s: Seq<AnimationView>, dt: u64, n: int) -> Seq<AnimationView>
    decreases n,
{
    if n <= 0 {
        Seq::empty()
    } else {
        let a = s[n - 1].advanced(dt);
        advance_all(s, dt, n - 1) + if a.done() {
            Seq::empty()
        } else {
            seq![a]
        }
    }
}

proof fn lemma_empties_in_row(walls: Seq<Seq<Wall>>, columns: int, y: int, n: int)
    requires
        grid_wf(walls, columns),
        0 <= y < walls.len(),
        n <= columns,
        columns <= 255,
        walls.len() <= 255,
    ensures
        forall|k: int|
            0 <= k < empties_in_row(walls[y], y, n).len() ==> in_grid(#[trigger] empties_in_row(walls[y], y, n)[k], columns, walls.len() as int)
                && (variant_at(walls, empties_in_row(walls[y], y, n)[k]) is Empty),
    decreases n,
{
    if n > 0 {
        lemma_empties_in_row(walls, columns, y, n - 1);
        let prev = empties_in_row(walls[y], y, n - 1);
        let cur = empties_in_row(walls[y], y, n);
        assert forall|k: int| 0 <= k < empties_in_row(walls[y], y, n).len() implies in_grid(#[trigger] empties_in_row(walls[y], y, n)[k], columns, walls.len() as int)
            && (variant_at(walls, empties_in_row(walls[y], y, n)[k]) is Empty) by {
            if k < prev.len() {
                assert(cur[k] == prev[k]);
                assert(in_grid(prev[k], columns, walls.len() as int));
            } else {
                assert(walls[y].len() == columns);
                assert(walls[y][n - 1].variant is Empty);
                assert(cur[k] == [(n - 1) as i32, y as i32]);
                assert(tile_at(walls, n - 1, y) == walls[y][n - 1]);
            }
        }
    }
}

proof fn lemma_empties_upto(walls: Seq<Seq<Wall>>, columns: int, m: int)
    requires
        grid_wf(walls, columns),
        m <= walls.len(),
        columns <= 255,
        walls.len() <= 255,
    ensures
        forall|k: int|
            0 <= k < empties_upto(walls, m).len() ==> in_grid(#[trigger] empties_upto(walls, m)[k], columns, walls.len() as int)
                && (variant_at(walls, empties_upto(walls, m)[k]) is Empty),
    decreases m,
{
    if m > 0 {
        lemma_empties_upto(walls, columns, m - 1);
        assert(walls[m - 1].len() == columns);
        lemma_empties_in_row(walls, columns, m - 1, columns);
        let prev = empties_upto(walls, m - 1);
        let row = empties_in_row(walls[m - 1], m - 1, columns);
        let cur = empties_upto(walls, m);
        assert forall|k: int| 0 <= k < cur.len() implies in_grid(#[trigger] cur[k], columns, walls.len() as int)
            && (variant_at(walls, cur[k]) is Empty) by {
            if k < prev.len() {
                assert(cur[k] == prev[k]);
                assert(in_grid(prev[k], columns, walls.len() as int));
            } else {
                assert(cur[k] == row[k - prev.len()]);
                assert(in_grid(row[k - prev.len()], columns, walls.len() as int));
            }
        }
    }
}

/// Every listed empty tile is on the grid and empty.
pub proof fn lemma_empty_tiles(walls: Seq<Seq<Wall>>, columns: int)
    requires
        grid_wf(walls, columns),
        columns <= 255,
        walls.len() <= 255,
    ensures
        forall|k: int|
            0 <= k < empty_tiles(walls).len() ==> in_grid(#[trigger] empty_tiles(walls)[k], columns, walls.len() as int)
                && (variant_at(walls, empty_tiles(walls)[k]) is Empty),
{
    lemma_empties_upto(walls, columns, walls.len() as int);
    let e = empty_tiles(walls);
    assert forall|k: int| 0 <= k < empty_tiles(walls).len() implies in_grid(#[trigger] empty_tiles(walls)[k], columns, walls.len() as int)
        && (variant_at(walls, empty_tiles(walls)[k]) is Empty) by {
        assert(e == empties_upto(walls, walls.len() as int));
        assert(in_grid(empties_upto(walls, walls.len() as int)[k], columns, walls.len() as int));
    }
}

pub open spec fn abs(v: int) -> int {
    if v < 0 {
        -v
    } else {
        v
    }
}

/// The order in which an opponent tries directions toward a target `dx`,
/// `dy` away: along the axis of larger distance first, then fixed
/// fallbacks.
pub open spec fn preference(dx: int, dy: int) -> Seq<LookDirection> {
    if abs(dx) > abs(dy) {
        if dx > 0 {
            seq![LookDirection::Right, LookDirection::Down, LookDirection::Up, LookDirection::Left]
        } else {
            seq![LookDirection::Left, LookDirection::Down, LookDirection::Up, LookDirection::Right]
        }
    } else {
        if dy > 0 {
            seq![LookDirection::Down, LookDirection::Right, LookDirection::Left, LookDirection::Up]
        } else {
            seq![LookDirection::Up, LookDirection::Right, LookDirection::Left, LookDirection::Down]
        }
    }
}

/// The first direction of `prefs` from index `k` on that combatant `i` can
/// step into.
pub open spec fn first_free(
    walls: Seq<Seq<Wall>>,
    columns: int,
    rows: int,
    ps: Seq<PlayerView>,
    i: int,
    prefs: Seq<LookDirection>,
    k: int,
) -> Option<LookDirection>
    decreases prefs.len() - k,
{
    if k < 0 || k >= prefs.len() {
        None
    } else if !blocked(walls, columns, rows, ps, i, step(prefs[k], ps[i].position)) {
        Some(prefs[k])
    } else {
        first_free(walls, columns, rows, ps, i, prefs, k + 1)
    }
}

/// The direction opponent `i` picks when it re-plans toward `target`.
pub open spec fn plan(walls: Seq<Seq<Wall>>, columns: int, rows: int, ps: Seq<PlayerView>, i: int, target: [i32; 2]) -> Option<LookDirection> {
    let me = ps[i].position;
    first_free(walls, columns, rows, ps, i, preference(target[0] - me[0], target[1] - me[1]), 0)
}

/// Two tiles share a column or a row.
pub open spec fn aligned(a: [i32; 2], b: [i32; 2]) -> bool {
    a[0] == b[0] || a[1] == b[1]
}

/// The facing from `me` toward `target` when aligned, else `current`.
pub open spec fn aim(me: [i32; 2], target: [i32; 2], current: LookDirection) -> LookDirection {
    if me[0] == target[0] {
        if target[1] > me[1] {
            LookDirection::Down
        } else {
            LookDirection::Up
        }
    } else if me[1] == target[1] {
        if target[0] > me[0] {
            LookDirection::Right
        } else {
            LookDirection::Left
        }
    } else {
        current
    }
}

pub open spec fn min(a: int, b: int) -> int {
    if a < b {
        a
    } else {
        b
    }
}

pub open spec fn max(a: int, b: int) -> int {
    if a < b {
        b
    } else {
        a
    }
}

/// Line of sight: the tiles share a column or row and no solid tile lies
/// strictly between them.
pub open spec fn clear_between(walls: Seq<Seq<Wall>>, from: [i32; 2], to: [i32; 2]) -> bool {
    if from[0] == to[0] {
        forall|y: int|
            min(from[1] as int, to[1] as int) < y < max(from[1] as int, to[1] as int) ==> !solid(
                (#[trigger] tile_at(walls, from[0] as int, y)).variant,
            )
    } else if from[1] == to[1] {
        forall|x: int|
            min(from[0] as int, to[0] as int) < x < max(from[0] as int, to[0] as int) ==> !solid(
                (#[trigger] tile_at(walls, x, from[1] as int)).variant,
            )
    } else {
        false
    }
}

pub open spec fn manhattan(a: [i32; 2], b: [i32; 2]) -> int {
    abs(a[0] - b[0]) + abs(a[1] - b[1])
}

/// `a - b`, stopping at zero.
pub open spec fn sat_sub(a: u64, b: u64) -> u64 {
    if a < b {
        0
    } else {
        (a - b) as u64
    }
}

/// The movement intent (up, right, down, left) that asserts just `d`.
pub open spec fn intent(d: Option<LookDirection>) -> Seq<bool> {
    seq![
        d == Some(LookDirection::Up),
        d == Some(LookDirection::Right),
        d == Some(LookDirection::Down),
        d == Some(LookDirection::Left),
    ]
}

/// Opponent `i`'s turn of planning after `dt`: both countdowns run down; a
/// countdown at zero re-plans the movement direction toward the human
/// (combatant 0) and restarts; when aligned with the human it faces it, and
/// it fires when it also has line of sight or is within two tiles, and its
/// fire cooldown is over (which restarts the cooldown).
pub open spec fn bot_turn(
    walls: Seq<Seq<Wall>>,
    columns: int,
    rows: int,
    ps: Seq<PlayerView>,
    i: int,
    br: BotBrain,
    dt: u64,
) -> (PlayerView, BotBrain) {
    let think = sat_sub(br.think_timer, dt);
    let fire = sat_sub(br.fire_cd, dt);
    let me = ps[i].position;
    let human = ps[0].position;
    let chosen = if think == 0 {
        plan(walls, columns, rows, ps, i, human)
    } else {
        None
    };
    let al = aligned(me, human);
    let want = al && (clear_between(walls, me, human) || manhattan(me, human) <= 2) && fire == 0;
    (
        PlayerView {
            moving: intent(chosen),
            direction: if al {
                aim(me, human, ps[i].direction)
            } else {
                ps[i].direction
            },
            firing: want,
            ..ps[i]
        },
        BotBrain {
            think_timer: if think == 0 {
                BOT_THINK_INTERVAL
            } else {
                think
            },
            fire_cd: if want {
                BOT_FIRE_COOLDOWN
            } else {
                fire
            },
        },
    )
}

/// Opponent `i` plans this frame: it has a brain and is alive.
pub open spec fn thinks(ps: Seq<PlayerView>, brains: Seq<Option<BotBrain>>, i: int) -> bool {
    1 <= i < ps.len() && brains[i] is Some && ps[i].alive
}

/// Two line-ups of combatants stand alike: same length, and each one is
/// alive and placed the same in both.
pub open spec fn same_ground(a: Seq<PlayerView>, b: Seq<PlayerView>) -> bool {
    a.len() == b.len() && forall|j: int| 0 <= j < a.len() ==> (#[trigger] a[j]).alive == b[j].alive && a[j].position == b[j].position
}

pub proof fn lemma_same_ground_blocked(walls: Seq<Seq<Wall>>, columns: int, rows: int, a: Seq<PlayerView>, b: Seq<PlayerView>, i: int, t: [i32; 2])
    requires
        same_ground(a, b),
    ensures
        blocked(walls, columns, rows, a, i, t) == blocked(walls, columns, rows, b, i, t),
{
    if occupied_by_other(a, i, t) {
        let j = choose|j: int| 0 <= j < a.len() && j != i && #[trigger] a[j].alive && a[j].position == t;
        assert(b[j].alive);
    }
    if occupied_by_other(b, i, t) {
        let j = choose|j: int| 0 <= j < b.len() && j != i && #[trigger] b[j].alive && b[j].position == t;
        assert(a[j].alive);
    }
}

pub proof fn lemma_same_ground_first_free(
    walls: Seq<Seq<Wall>>,
    columns: int,
    rows: int,
    a: Seq<PlayerView>,
    b: Seq<PlayerView>,
    i: int,
    prefs: Seq<LookDirection>,
    k: int,
)
    requires
        same_ground(a, b),
        0 <= i < a.len(),
    ensures
        first_free(walls, columns, rows, a, i, prefs, k) == first_free(walls, columns, rows, b, i, prefs, k),
    decreases prefs.len() - k,
{
    if 0 <= k < prefs.len() {
        assert(a[i].position == b[i].position);
        lemma_same_ground_blocked(walls, columns, rows, a, b, i, step(prefs[k], a[i].position));
        lemma_same_ground_first_free(walls, columns, rows, a, b, i, prefs, k + 1);
    }
}

pub proof fn lemma_same_ground_bot_turn(
    walls: Seq<Seq<Wall>>,
    columns: int,
    rows: int,
    a: Seq<PlayerView>,
    b: Seq<PlayerView>,
    i: int,
    br: BotBrain,
    dt: u64,
)
    requires
        same_ground(a, b),
        0 < i < a.len(),
        a[i] == b[i],
    ensures
        bot_turn(walls, columns, rows, a, i, br, dt) == bot_turn(walls, columns, rows, b, i, br, dt),
{
    assert(a[0].position == b[0].position);
    let me = a[i].position;
    let human = a[0].position;
    lemma_same_ground_first_free(walls, columns, rows, a, b, i, preference(human[0] - me[0], human[1] - me[1]), 0);
}

/// What `first_free` picks is a direction the combatant can step into.
pub proof fn lemma_first_free_unblocked(
    walls: Seq<Seq<Wall>>,
    columns: int,
    rows: int,
    ps: Seq<PlayerView>,
    i: int,
    prefs: Seq<LookDirection>,
    k: int,
)
    ensures
        first_free(walls, columns, rows, ps, i, prefs, k) matches Some(d) ==> !blocked(
            walls,
            columns,
            rows,
            ps,
            i,
            step(d, ps[i].position),
        ),
    decreases prefs.len() - k,
{
    if 0 <= k < prefs.len() && blocked(walls, columns, rows, ps, i, step(prefs[k], ps[i].position)) {
        lemma_first_free_unblocked(walls, columns, rows, ps, i, prefs, k + 1);
    }
}

} // verus!
