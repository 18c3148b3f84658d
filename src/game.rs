use vstd::prelude::*;
use crate::animation::{Animation, AnimationView};
use crate::constants::{
    ARMOR_SPAWN_TIME, BOT_FIRE_COOLDOWN, BOT_THINK_INTERVAL, COLUMN_COUNT, GAME_TICK_INTERVAL,
    HEALTH_SPAWN_TIME, MAX_SPAWNED_PICKUPS, PLAYER_LIVES, ROW_COUNT, SAFE_ZONE_RADIUS,
};
use crate::pickup::{Pickup, PickupSpawnSystem, PickupType, sat_add};
use crate::player::{Player, PlayerView, initial_player};
use crate::projectile::Projectile;
use crate::rules::{
    credit_kills, flies_on, hits_terrain, Collection, Moves, Revival, Strike, advance_all, ahead, all_blasts, blocked, bot_turn,
    clear_between, collect, collide, empties_in_row, empties_upto, empty_tiles, fires,
    first_alive_at, first_free, first_with_id, flown, intent, lemma_first_alive_at,
    lemma_first_with_id, lemma_same_ground_bot_turn, move_one, moved, moves, occupied_by_other,
    pair_blasts, plan, preference, respawns, revive, same_ground, spawn_attempt, strike, strikes,
    survives, thinks,
};
use crate::transform::{LookDirection, same_tile, steppable};
use crate::wall::{
    Wall, WallType, carve_safe_zone, damage_tile, generate_walls, grid_of, grid_wf, in_grid, on_ring,
    tile_at,
};

verus! {

/// The phases of a game.
#[derive(Clone, Copy, Debug, PartialEq, Eq, Structural)]
pub enum GameState {
    Menu,
    Playing,
    Won,
    Lost,
}

/// The planning state of one opponent: countdowns to its next re-plan and
/// to the end of its fire cooldown.
#[derive(Clone, Copy, Debug)]
pub struct BotBrain {
    pub think_timer: u64,
    pub fire_cd: u64,
}

impl BotBrain {
    pub fn new() -> (r: BotBrain)
        ensures
            r == (BotBrain { think_timer: 0, fire_cd: 0 }),
    {
        BotBrain { think_timer: 0, fire_cd: 0 }
    }
}

pub fn is_in_bounds(x: i32, y: i32, column_count: u8, row_count: u8) -> (r: bool)
    ensures
        r == in_grid([x, y], column_count as int, row_count as int),
{
    x >= 0 && x < column_count as i32 && y >= 0 && y < row_count as i32
}

/// What a game is, as the contracts see it.
pub struct GameView {
    pub columns: u8,
    pub rows: u8,
    pub players: Seq<PlayerView>,
    pub walls: Seq<Seq<Wall>>,
    pub pickups: Seq<Pickup>,
    pub spawners: Seq<PickupSpawnSystem>,
    pub max_pickups: usize,
    pub bullets: Seq<Projectile>,
    pub animations: Seq<AnimationView>,
    pub accumulated: u64,
    pub last_update: u64,
    pub interval: u64,
    pub brains: Seq<Option<BotBrain>>,
    pub state: GameState,
    pub state_time: u64,
}

pub open spec fn player_views(s: Seq<Player>) -> Seq<PlayerView> {
    s.map_values(|p: Player| p@)
}

pub open spec fn animation_views(s: Seq<Animation>) -> Seq<AnimationView> {
    s.map_values(|a: Animation| a@)
}

/// Every combatant is consistent and stands on the grid.
pub open spec fn players_wf(ps: Seq<PlayerView>, columns: int, rows: int) -> bool {
    forall|i: int|
        0 <= i < ps.len() ==> (#[trigger] ps[i]).inv() && in_grid(ps[i].position, columns, rows)
            && in_grid(ps[i].spawn, columns, rows)
}

/// No two combatants share an id.
pub open spec fn ids_distinct(ps: Seq<PlayerView>) -> bool {
    forall|i: int, j: int| 0 <= i < ps.len() && 0 <= j < ps.len() && i != j ==> #[trigger] ps[i].id != #[trigger] ps[j].id
}

/// Two line-ups of the same length whose combatants carry the same ids.
pub open spec fn same_ids(a: Seq<PlayerView>, b: Seq<PlayerView>) -> bool {
    a.len() == b.len() && forall|i: int| 0 <= i < a.len() ==> (#[trigger] a[i]).id == b[i].id
}

proof fn lemma_players_wf_update(ps: Seq<PlayerView>, i: int, p: PlayerView, columns: int, rows: int)
    requires
        players_wf(ps, columns, rows),
        0 <= i < ps.len(),
        p.inv(),
        in_grid(p.position, columns, rows),
        in_grid(p.spawn, columns, rows),
    ensures
        players_wf(ps.update(i, p), columns, rows),
{
    assert forall|m: int| 0 <= m < ps.len() implies (#[trigger] ps.update(i, p)[m]).inv() && in_grid(ps.update(i, p)[m].position, columns, rows)
        && in_grid(ps.update(i, p)[m].spawn, columns, rows) by {
        if m != i {
            assert(ps[m].inv());
        }
    }
}

proof fn lemma_same_ids(a: Seq<PlayerView>, b: Seq<PlayerView>)
    requires
        ids_distinct(a),
        same_ids(a, b),
    ensures
        ids_distinct(b),
{
    assert forall|i: int, j: int| 0 <= i < b.len() && 0 <= j < b.len() && i != j implies #[trigger] b[i].id != #[trigger] b[j].id by {
        assert(a[i].id != a[j].id);
    }
}

proof fn lemma_first_with_id_same(a: Seq<PlayerView>, b: Seq<PlayerView>, id: u32, j: int)
    requires
        same_ids(a, b),
    ensures
        first_with_id(a, id, j) == first_with_id(b, id, j),
    decreases a.len() - j,
{
    if 0 <= j < a.len() {
        lemma_first_with_id_same(a, b, id, j + 1);
    }
}

pub open spec fn bullets_wf(bs: Seq<Projectile>, columns: int, rows: int) -> bool {
    forall|i: int| 0 <= i < bs.len() ==> in_grid((#[trigger] bs[i]).position, columns, rows)
}

pub open spec fn animations_wf(s: Seq<AnimationView>) -> bool {
    forall|i: int| 0 <= i < s.len() ==> (#[trigger] s[i]).inv()
}

impl GameView {
    /// A consistent game: a grid of at least one tile with a tile for every
    /// position, a human and a brain slot per combatant, every combatant
    /// consistent and on the grid with an id of its own, every projectile on
    /// the grid.
    pub open spec fn wf(self) -> bool {
        &&& self.columns >= 1
        &&& self.rows >= 1
        &&& self.walls.len() == self.rows
        &&& grid_wf(self.walls, self.columns as int)
        &&& self.players.len() >= 1
        &&& self.brains.len() == self.players.len()
        &&& players_wf(self.players, self.columns as int, self.rows as int)
        &&& ids_distinct(self.players)
        &&& bullets_wf(self.bullets, self.columns as int, self.rows as int)
        &&& animations_wf(self.animations)
        &&& self.spawners.len() == 2
        &&& self.last_update <= self.accumulated
    }

    /// The human is alive or still holds a life.
    pub open spec fn human_in_play(self) -> bool {
        self.players[0].alive || self.players[0].lives > 0
    }

    /// Some opponent is alive.
    pub open spec fn opponent_alive(self) -> bool {
        exists|i: int| 1 <= i < self.players.len() && (#[trigger] self.players[i]).alive
    }

    /// The phase after a win/lose evaluation.
    pub open spec fn judged(self) -> GameView {
        if self.state is Playing && self.human_in_play() && !self.opponent_alive() {
            GameView { state: GameState::Won, state_time: 0, ..self }
        } else if self.state is Playing && !self.human_in_play() {
            GameView { state: GameState::Lost, state_time: 0, ..self }
        } else {
            self
        }
    }
}

/// The parts of a game that projectiles strike.
pub open spec fn strike_state(g: GameView, keep: Seq<bool>) -> Strike {
    Strike { walls: g.walls, players: g.players, animations: g.animations, keep }
}

impl GameView {
    /// For each projectile, whether it flies on through terrain and
    /// combatants, judged against this game at the start of the pass.
    pub open spec fn strike_flags(self) -> Seq<bool> {
        Seq::new(
            self.bullets.len(),
            |m: int| flies_on(self.walls, self.players, self.bullets[m], self.columns as int, self.rows as int),
        )
    }

    /// The game after one projectile resolution: every projectile strikes
    /// terrain and combatants, judged against the game as it was; kills are
    /// credited; among those still in flight, every pair that meets is
    /// removed with one explosion at its meeting tile; the rest move one
    /// tile.
    pub open spec fn projectiles_resolved(self) -> GameView {
        let n = self.bullets.len() as int;
        let s = strikes(strike_state(self, Seq::empty()), self.bullets, self.columns as int, self.rows as int, n);
        GameView {
            walls: s.walls,
            players: credit_kills(
                s.players,
                self.walls,
                self.players,
                self.bullets,
                self.columns as int,
                self.rows as int,
                self.players.len() as int,
            ),
            animations: s.animations + all_blasts(self.bullets, s.keep, n),
            bullets: flown(self.bullets, s.keep, n),
            ..self
        }
    }
}

impl GameView {
    /// The movement pass of a tick.
    pub open spec fn moved_all(self) -> GameView {
        let m = moves(
            Moves { players: self.players, bullets: self.bullets },
            self.walls,
            self.columns as int,
            self.rows as int,
            self.players.len() as int,
        );
        GameView { players: m.players, bullets: m.bullets, ..self }
    }

    /// The respawn pass of a tick.
    pub open spec fn revived_all(self) -> GameView {
        let r = revive(Revival { players: self.players, animations: self.animations }, self.players.len() as int);
        GameView { players: r.players, animations: r.animations, ..self }
    }

    /// Pickup collection of a tick.
    pub open spec fn collected_all(self) -> GameView {
        let c = collect(Collection { players: self.players, pickups: Seq::empty() }, self.pickups, self.pickups.len() as int);
        GameView { players: c.players, pickups: c.pickups, ..self }
    }

    /// One resolved tick: movement and firing, respawns, pickup collection,
    /// projectile resolution.
    pub open spec fn ticked(self) -> GameView {
        self.moved_all().revived_all().collected_all().projectiles_resolved()
    }
}

impl GameView {
    /// The planning of every opponent after `dt`, while playing.
    pub open spec fn bots_thought(self, dt: u64) -> GameView {
        if !(self.state is Playing) {
            self
        } else {
            let n = self.players.len();
            GameView {
                players: Seq::new(
                    n,
                    |i: int|
                        if thinks(self.players, self.brains, i) {
                            bot_turn(self.walls, self.columns as int, self.rows as int, self.players, i, self.brains[i]->Some_0, dt).0
                        } else {
                            self.players[i]
                        },
                ),
                brains: Seq::new(
                    n,
                    |i: int|
                        if thinks(self.players, self.brains, i) {
                            Some(bot_turn(self.walls, self.columns as int, self.rows as int, self.players, i, self.brains[i]->Some_0, dt).1)
                        } else {
                            self.brains[i]
                        },
                ),
                ..self
            }
        }
    }
}

impl GameView {
    /// The pickup timers after `dt`, each making its spawn attempt when due;
    /// `first_draw` and `second_draw` pick the tile for the armor and the
    /// health spawner.
    pub open spec fn pickups_spawned(self, dt: u64, first_draw: usize, second_draw: usize) -> GameView {
        let s0 = PickupSpawnSystem { elapsed: sat_add(self.spawners[0].elapsed, dt), ..self.spawners[0] };
        let a = spawn_attempt(self.pickups, s0, self.walls, self.max_pickups as int, first_draw);
        let s1 = PickupSpawnSystem { elapsed: sat_add(self.spawners[1].elapsed, dt), ..self.spawners[1] };
        let b = spawn_attempt(a.0, s1, self.walls, self.max_pickups as int, second_draw);
        GameView { pickups: b.0, spawners: seq![a.1, b.1], ..self }
    }

    /// The clock and the phase time after `dt` (both saturating).
    pub open spec fn clock_advanced(self, dt: u64) -> GameView {
        GameView { accumulated: sat_add(self.accumulated, dt), state_time: sat_add(self.state_time, dt), ..self }
    }

    /// Every animation after `dt`, without those that finished.
    pub open spec fn animations_advanced(self, dt: u64) -> GameView {
        GameView { animations: advance_all(self.animations, dt, self.animations.len() as int), ..self }
    }

    /// Every reload timer after `dt`.
    pub open spec fn reloads_advanced(self, dt: u64) -> GameView {
        GameView {
            players: Seq::new(
                self.players.len(),
                |i: int| PlayerView { reload: sat_add(self.players[i].reload, dt), ..self.players[i] },
            ),
            ..self
        }
    }

    /// Enough time has gathered since the last resolved tick.
    pub open spec fn tick_due(self) -> bool {
        self.accumulated - self.last_update >= self.interval
    }

    /// One frame of `dt`: the clock, animations and reload timers advance,
    /// opponents plan, the pickup timers run; if a tick is due it is
    /// resolved; then the phase is judged.
    pub open spec fn framed(self, dt: u64, first_draw: usize, second_draw: usize) -> GameView {
        let a = self.clock_advanced(dt).animations_advanced(dt).reloads_advanced(dt).bots_thought(dt).pickups_spawned(
            dt,
            first_draw,
            second_draw,
        );
        let b = if a.tick_due() {
            GameView { last_update: a.accumulated, ..a }.ticked()
        } else {
            a
        };
        b.judged()
    }
}

/// Index of `d` among the movement intents (up, right, down, left).
pub open spec fn intent_index(d: LookDirection) -> int {
    match d {
        LookDirection::Up => 0,
        LookDirection::Right => 1,
        LookDirection::Down => 2,
        LookDirection::Left => 3,
    }
}

proof fn lemma_player_views_update(s: Seq<Player>, i: int, p: Player)
    requires
        0 <= i < s.len(),
    ensures
        player_views(s.update(i, p)) == player_views(s).update(i, p@),
{
    assert(player_views(s.update(i, p)) =~= player_views(s).update(i, p@));
}

proof fn lemma_animation_views_push(s: Seq<Animation>, a: Animation)
    ensures
        animation_views(s.push(a)) == animation_views(s).push(a@),
{
    assert(animation_views(s.push(a)) =~= animation_views(s).push(a@));
}

fn collides(a: &Projectile, b: &Projectile) -> (r: bool)
    requires
        steppable(a.position),
        steppable(b.position),
    ensures
        r == collide(*a, *b),
{
    let ta = a.next_position();
    let tb = b.next_position();
    same_tile(ta, tb) || same_tile(ta, b.position) || same_tile(tb, a.position)
}

/// `x`, `y` lies within the safe zone of one of the first `n` spawn tiles.
pub open spec fn near_spawn(ps: Seq<PlayerView>, n: int, x: int, y: int) -> bool {
    exists|i: int|
        0 <= i < n && ps[i].spawn[0] - SAFE_ZONE_RADIUS <= x <= ps[i].spawn[0] + SAFE_ZONE_RADIUS
            && #[trigger] ps[i].spawn[1] - SAFE_ZONE_RADIUS <= y <= ps[i].spawn[1] + SAFE_ZONE_RADIUS
}

/// Fresh terrain for combatants `ps`: the safe zone around every spawn
/// tile is empty; elsewhere the outer ring is border and no inner tile is.
pub open spec fn fresh_terrain(walls: Seq<Seq<Wall>>, columns: int, rows: int, ps: Seq<PlayerView>) -> bool {
    &&& walls.len() == rows
    &&& grid_wf(walls, columns)
    &&& forall|x: int, y: int|
        0 <= x < columns && 0 <= y < rows ==> if near_spawn(ps, ps.len() as int, x, y) {
            (#[trigger] tile_at(walls, x, y)).variant is Empty
        } else {
            (tile_at(walls, x, y).variant is Border <==> on_ring(x, y, columns, rows))
        }
}

/// The combatants of a new game: the human at the top-left corner facing
/// down, opponents at the other three corners.
pub open spec fn initial_players(columns: u8, rows: u8) -> Seq<PlayerView> {
    let c = (columns - 1) as i32;
    let r = (rows - 1) as i32;
    seq![
        initial_player(0, [0i32, 0i32], LookDirection::Down),
        initial_player(1, [c, r], LookDirection::Up),
        initial_player(2, [0i32, r], LookDirection::Up),
        initial_player(3, [c, 0i32], LookDirection::Down),
    ]
}

/// A game in the menu phase with an empty clock and nothing in flight.
pub open spec fn fresh_game(columns: u8, rows: u8, walls: Seq<Seq<Wall>>, players: Seq<PlayerView>) -> GameView {
    GameView {
        columns,
        rows,
        players,
        walls,
        pickups: Seq::empty(),
        spawners: seq![
            PickupSpawnSystem { variant: PickupType::Armor, spawn_time: ARMOR_SPAWN_TIME, elapsed: 0 },
            PickupSpawnSystem { variant: PickupType::Health, spawn_time: HEALTH_SPAWN_TIME, elapsed: 0 },
        ],
        max_pickups: MAX_SPAWNED_PICKUPS,
        bullets: Seq::empty(),
        animations: Seq::empty(),
        accumulated: 0,
        last_update: 0,
        interval: GAME_TICK_INTERVAL,
        brains: initial_brains(players.len() as int),
        state: GameState::Menu,
        state_time: 0,
    }
}

/// Random terrain for `players`, with their safe zones carved out.
fn build_terrain(column_count: u8, row_count: u8, players: &Vec<Player>) -> (walls: Vec<Vec<Wall>>)
    requires
        column_count >= 1,
        row_count >= 1,
    ensures
        fresh_terrain(grid_of(walls@), column_count as int, row_count as int, player_views(players@)),
{
    let ghost ps = player_views(players@);
    let ghost c = column_count as int;
    let ghost r = row_count as int;
    let mut walls = generate_walls(column_count, row_count);
    let mut i: usize = 0;
    while i < players.len()
        invariant
            i <= players@.len(),
            ps == player_views(players@),
            1 <= c <= 255,
            1 <= r <= 255,
            walls@.len() == r,
            grid_wf(grid_of(walls@), c),
            forall|x: int, y: int|
                0 <= x < c && 0 <= y < r ==> if near_spawn(ps, i as int, x, y) {
                    (#[trigger] tile_at(grid_of(walls@), x, y)).variant is Empty
                } else {
                    (tile_at(grid_of(walls@), x, y).variant is Border <==> on_ring(x, y, c, r))
                },
        decreases players@.len() - i,
    {
        let ghost before = grid_of(walls@);
        let center = players[i].get_spawn();
        assert(grid_of(walls@)[0].len() == c);
        carve_safe_zone(&mut walls, center, SAFE_ZONE_RADIUS);
        assert forall|x: int, y: int|
            0 <= x < c && 0 <= y < r implies if near_spawn(ps, i + 1, x, y) {
                (#[trigger] tile_at(grid_of(walls@), x, y)).variant is Empty
            } else {
                (tile_at(grid_of(walls@), x, y).variant is Border <==> on_ring(x, y, c, r))
            } by {
            assert(before[y].len() == c);
            if near_spawn(ps, i + 1, x, y) && !near_spawn(ps, i as int, x, y) {
                let j = choose|j: int|
                    0 <= j < i + 1 && ps[j].spawn[0] - SAFE_ZONE_RADIUS <= x <= ps[j].spawn[0] + SAFE_ZONE_RADIUS
                        && #[trigger] ps[j].spawn[1] - SAFE_ZONE_RADIUS <= y <= ps[j].spawn[1] + SAFE_ZONE_RADIUS;
                if j < i {
                    assert(near_spawn(ps, i as int, x, y));
                }
            }
            if near_spawn(ps, i as int, x, y) {
                let j = choose|j: int|
                    0 <= j < i && ps[j].spawn[0] - SAFE_ZONE_RADIUS <= x <= ps[j].spawn[0] + SAFE_ZONE_RADIUS
                        && #[trigger] ps[j].spawn[1] - SAFE_ZONE_RADIUS <= y <= ps[j].spawn[1] + SAFE_ZONE_RADIUS;
                assert(near_spawn(ps, i + 1, x, y));
            }
            if !near_spawn(ps, i + 1, x, y) {
                assert(!(ps[i as int].spawn[0] - SAFE_ZONE_RADIUS <= x <= ps[i as int].spawn[0] + SAFE_ZONE_RADIUS
                    && ps[i as int].spawn[1] - SAFE_ZONE_RADIUS <= y <= ps[i as int].spawn[1] + SAFE_ZONE_RADIUS));
            }
        }
        i = i + 1;
    }
    walls
}

/// The brain slots of a new game: none for the human, a fresh one for each
/// opponent.
pub open spec fn initial_brains(n: int) -> Seq<Option<BotBrain>> {
    Seq::new(n as nat, |i: int| if i == 0 { None } else { Some(BotBrain { think_timer: 0, fire_cd: 0 }) })
}

/// The simulation: terrain, combatants, transient objects, clock and phase.
pub struct Game {
    column_count: u8,
    row_count: u8,
    players: Vec<Player>,
    walls: Vec<Vec<Wall>>,
    pickups: Vec<Pickup>,
    pickup_spawn_systems: Vec<PickupSpawnSystem>,
    max_pickups: usize,
    bullets: Vec<Projectile>,
    animations: Vec<Animation>,
    accumulated_time: u64,
    last_update: u64,
    update_interval: u64,
    bot_brains: Vec<Option<BotBrain>>,
    state: GameState,
    state_time: u64,
}

impl View for Game {
    type V = GameView;

    closed spec fn view(&self) -> GameView {
        GameView {
            columns: self.column_count,
            rows: self.row_count,
            players: player_views(self.players@),
            walls: grid_of(self.walls@),
            pickups: self.pickups@,
            spawners: self.pickup_spawn_systems@,
            max_pickups: self.max_pickups,
            bullets: self.bullets@,
            animations: animation_views(self.animations@),
            accumulated: self.accumulated_time,
            last_update: self.last_update,
            interval: self.update_interval,
            brains: self.bot_brains@,
            state: self.state,
            state_time: self.state_time,
        }
    }
}

impl Game {
    /// A game in the menu phase over the given terrain and combatants, with
    /// an empty clock and nothing in flight.
    pub fn from_parts(column_count: u8, row_count: u8, walls: Vec<Vec<Wall>>, players: Vec<Player>) -> (g: Game)
        requires
            column_count >= 1,
            row_count >= 1,
            walls@.len() == row_count,
            grid_wf(grid_of(walls@), column_count as int),
            players@.len() >= 1,
            players_wf(player_views(players@), column_count as int, row_count as int),
            ids_distinct(player_views(players@)),
        ensures
            g@.wf(),
            g@ == fresh_game(column_count, row_count, grid_of(walls@), player_views(players@)),
    {
        let mut bot_brains: Vec<Option<BotBrain>> = Vec::new();
        let mut i: usize = 0;
        while i < players.len()
            invariant
                i <= players@.len(),
                bot_brains@ =~= initial_brains(players@.len() as int).subrange(0, i as int),
            decreases players@.len() - i,
        {
            if i == 0 {
                bot_brains.push(None);
            } else {
                bot_brains.push(Some(BotBrain::new()));
            }
            i = i + 1;
        }
        let mut spawners: Vec<PickupSpawnSystem> = Vec::new();
        spawners.push(PickupSpawnSystem::new(PickupType::Armor, ARMOR_SPAWN_TIME));
        spawners.push(PickupSpawnSystem::new(PickupType::Health, HEALTH_SPAWN_TIME));
        let g = Game {
            column_count,
            row_count,
            players,
            walls,
            pickups: Vec::new(),
            pickup_spawn_systems: spawners,
            max_pickups: MAX_SPAWNED_PICKUPS,
            bullets: Vec::new(),
            animations: Vec::new(),
            accumulated_time: 0,
            last_update: 0,
            update_interval: GAME_TICK_INTERVAL,
            bot_brains,
            state: GameState::Menu,
            state_time: 0,
        };
        assert(g@.spawners =~= seq![
            PickupSpawnSystem { variant: PickupType::Armor, spawn_time: ARMOR_SPAWN_TIME, elapsed: 0 },
            PickupSpawnSystem { variant: PickupType::Health, spawn_time: HEALTH_SPAWN_TIME, elapsed: 0 },
        ]);
        assert(g@.animations =~= Seq::<AnimationView>::empty());
        assert(g@.brains =~= initial_brains(players@.len() as int));
        g
    }

    /// Index of the first living combatant at `t`, or the number of
    /// combatants.
    fn first_alive_at(&self, t: [i32; 2]) -> (k: usize)
        ensures
            k as int == first_alive_at(self@.players, t, 0),
    {
        let mut j: usize = 0;
        while j < self.players.len()
            invariant
                j <= self.players@.len(),
                first_alive_at(self@.players, t, 0) == first_alive_at(self@.players, t, j as int),
            decreases self.players@.len() - j,
        {
            if self.players[j].get_is_alive() && same_tile(self.players[j].get_position(), t) {
                return j;
            }
            j = j + 1;
        }
        j
    }

    /// Index of the first combatant with `id`, or the number of combatants.
    fn find_player_by_id(&self, id: u32) -> (k: usize)
        ensures
            k as int == first_with_id(self@.players, id, 0),
    {
        let mut j: usize = 0;
        while j < self.players.len()
            invariant
                j <= self.players@.len(),
                first_with_id(self@.players, id, 0) == first_with_id(self@.players, id, j as int),
            decreases self.players@.len() - j,
        {
            if self.players[j].get_id() == id {
                return j;
            }
            j = j + 1;
        }
        j
    }

    /// Whether a living combatant other than `i` stands on `t`.
    fn occupied_by_other(&self, i: usize, t: [i32; 2]) -> (r: bool)
        ensures
            r == occupied_by_other(self@.players, i as int, t),
    {
        let mut j: usize = 0;
        while j < self.players.len()
            invariant
                j <= self.players@.len(),
                forall|m: int| 0 <= m < j && m != i ==> !(#[trigger] self@.players[m].alive && self@.players[m].position == t),
            decreases self.players@.len() - j,
        {
            if j != i && self.players[j].get_is_alive() && same_tile(self.players[j].get_position(), t) {
                assert(self@.players[j as int].alive);
                return true;
            }
            j = j + 1;
        }
        false
    }

    /// Combatant `i`'s turn of the movement pass.
    fn move_player(&mut self, i: usize)
        requires
            old(self)@.wf(),
            i < old(self)@.players.len(),
        ensures
            final(self)@.wf(),
            (Moves { players: final(self)@.players, bullets: final(self)@.bullets }) == move_one(
                Moves { players: old(self)@.players, bullets: old(self)@.bullets },
                old(self)@.walls,
                old(self)@.columns as int,
                old(self)@.rows as int,
                i as int,
            ),
            final(self)@ == (GameView { players: final(self)@.players, bullets: final(self)@.bullets, ..old(self)@ }),
    {
        let ghost g0 = self@;
        let ghost cols = g0.columns as int;
        let ghost rows = g0.rows as int;
        if !self.players[i].get_is_alive() {
            return;
        }
        assert(g0.players[i as int].inv() && in_grid(g0.players[i as int].position, cols, rows));
        let pos = self.players[i].get_position();
        let ghost ps0 = self.players@;
        self.players[i].set_position(pos);
        proof {
            lemma_player_views_update(ps0, i as int, self.players@[i as int]);
        }
        let ghost p0 = PlayerView { previous: g0.players[i as int].position, ..g0.players[i as int] };
        assert(self@.players == g0.players.update(i as int, p0));
        match self.players[i].get_pressed_direction() {
            Some(d) => {
                let t = d.position_from(&pos);
                let mut is_blocked = !is_in_bounds(t[0], t[1], self.column_count, self.row_count);
                if !is_blocked {
                    let x = t[0] as usize;
                    let y = t[1] as usize;
                    assert(self.walls@[y as int]@.len() == self.column_count) by {
                        assert(grid_of(self.walls@)[y as int].len() == self.column_count);
                    }
                    assert(tile_at(g0.walls, x as int, y as int) == self.walls@[y as int]@[x as int]);
                    is_blocked = self.walls[y][x].is_solid();
                }
                if !is_blocked {
                    is_blocked = self.occupied_by_other(i, t);
                    assert(occupied_by_other(self@.players, i as int, t) == occupied_by_other(g0.players, i as int, t)) by {
                        assert forall|j: int| 0 <= j < g0.players.len() && j != i implies self@.players[j] == g0.players[j] by {}
                        if occupied_by_other(g0.players, i as int, t) {
                            let j = choose|j: int| 0 <= j < g0.players.len() && j != i && #[trigger] g0.players[j].alive && g0.players[j].position == t;
                            assert(self@.players[j].alive);
                        }
                        if occupied_by_other(self@.players, i as int, t) {
                            let j = choose|j: int| 0 <= j < self@.players.len() && j != i && #[trigger] self@.players[j].alive && self@.players[j].position == t;
                            assert(g0.players[j].alive);
                        }
                    }
                }
                assert(is_blocked == blocked(g0.walls, cols, rows, g0.players, i as int, t));
                if !is_blocked {
                    let ghost ps1 = self.players@;
                    self.players[i].set_position(t);
                    proof {
                        lemma_player_views_update(ps1, i as int, self.players@[i as int]);
                    }
                }
                let ghost ps2 = self.players@;
                self.players[i].set_direction(d);
                proof {
                    lemma_player_views_update(ps2, i as int, self.players@[i as int]);
                }
            },
            None => {},
        }
        let ghost pm = moved(g0.walls, cols, rows, g0.players, i as int);
        assert(self@.players == g0.players.update(i as int, pm));
        if self.players[i].get_is_fire_pressed() {
            let ghost ps3 = self.players@;
            let fired = self.players[i].shoot();
            proof {
                lemma_player_views_update(ps3, i as int, self.players@[i as int]);
            }
            if fired {
                let p = self.players[i].get_position();
                let d = *self.players[i].get_direction();
                let id = self.players[i].get_id();
                self.bullets.push(Projectile::new(id, p, d));
            }
        }
        proof {
            assert(self@.players =~= move_one(
                Moves { players: g0.players, bullets: g0.bullets },
                g0.walls,
                cols,
                rows,
                i as int,
            ).players);
            assert(self@.players == g0.players.update(i as int, self@.players[i as int]));
            lemma_players_wf_update(g0.players, i as int, self@.players[i as int], cols, rows);
            assert(bullets_wf(self@.bullets, cols, rows)) by {
                assert forall|j: int| 0 <= j < self@.bullets.len() implies in_grid((#[trigger] self@.bullets[j]).position, cols, rows) by {
                    if j < g0.bullets.len() {
                        assert(g0.bullets[j] == self@.bullets[j]);
                    }
                }
            }
        }
    }

    fn dir_index(dir: LookDirection) -> (r: usize)
        ensures
            r as int == intent_index(dir),
    {
        match dir {
            LookDirection::Up => 0,
            LookDirection::Right => 1,
            LookDirection::Down => 2,
            LookDirection::Left => 3,
        }
    }

    /// Line of sight between two tiles of `walls` sharing a column or row: no
    /// solid tile strictly between them.
    fn los_on_walls(walls: &Vec<Vec<Wall>>, from: [i32; 2], to: [i32; 2]) -> (r: bool)
        requires
            walls@.len() > 0,
            walls@.len() < i32::MAX,
            walls@[0]@.len() < i32::MAX,
            grid_wf(grid_of(walls@), walls@[0]@.len() as int),
            in_grid(from, walls@[0]@.len() as int, walls@.len() as int),
            in_grid(to, walls@[0]@.len() as int, walls@.len() as int),
        ensures
            r == clear_between(grid_of(walls@), from, to),
    {
        let ghost g = grid_of(walls@);
        let ghost w = walls@[0]@.len() as int;
        if from[0] == to[0] {
            let x = from[0];
            let lo = if from[1] < to[1] { from[1] } else { to[1] };
            let hi = if from[1] < to[1] { to[1] } else { from[1] };
            assert(lo == crate::rules::min(from[1] as int, to[1] as int));
            assert(hi == crate::rules::max(from[1] as int, to[1] as int));
            let mut y = lo + 1;
            while y < hi
                invariant
                    lo + 1 <= y,
                    y <= hi || y == lo + 1,
                    0 <= lo <= hi < walls@.len(),
                    0 <= x < w,
                    from[0] == to[0],
                    x == from[0],
                    lo == crate::rules::min(from[1] as int, to[1] as int),
                    hi == crate::rules::max(from[1] as int, to[1] as int),
                    g == grid_of(walls@),
                    grid_wf(g, w),
                    forall|m: int| lo < m < y ==> !crate::wall::solid((#[trigger] tile_at(g, x as int, m)).variant),
                decreases hi - y,
            {
                assert(walls@[y as int]@.len() == w) by {
                    assert(g[y as int].len() == w);
                }
                assert(tile_at(g, x as int, y as int) == walls@[y as int]@[x as int]);
                if walls[y as usize][x as usize].is_solid() {
                    assert(!clear_between(g, from, to));
                    return false;
                }
                y = y + 1;
            }
            true
        } else if from[1] == to[1] {
            let y = from[1];
            let lo = if from[0] < to[0] { from[0] } else { to[0] };
            let hi = if from[0] < to[0] { to[0] } else { from[0] };
            assert(lo == crate::rules::min(from[0] as int, to[0] as int));
            assert(hi == crate::rules::max(from[0] as int, to[0] as int));
            let mut x = lo + 1;
            assert(walls@[y as int]@.len() == w) by {
                assert(g[y as int].len() == w);
            }
            while x < hi
                invariant
                    lo + 1 <= x,
                    x <= hi || x == lo + 1,
                    0 <= lo <= hi < w,
                    0 <= y < walls@.len(),
                    walls@[y as int]@.len() == w,
                    from[0] != to[0],
                    from[1] == to[1],
                    y == from[1],
                    lo == crate::rules::min(from[0] as int, to[0] as int),
                    hi == crate::rules::max(from[0] as int, to[0] as int),
                    g == grid_of(walls@),
                    forall|m: int| lo < m < x ==> !crate::wall::solid((#[trigger] tile_at(g, m, y as int)).variant),
                decreases hi - x,
            {
                assert(tile_at(g, x as int, y as int) == walls@[y as int]@[x as int]);
                if walls[y as usize][x as usize].is_solid() {
                    assert(!clear_between(g, from, to));
                    return false;
                }
                x = x + 1;
            }
            true
        } else {
            false
        }
    }

    /// Line of sight between two tiles of this game's terrain.
    fn clear_line_of_sight(&self, from: [i32; 2], to: [i32; 2]) -> (r: bool)
        requires
            self@.wf(),
            in_grid(from, self@.columns as int, self@.rows as int),
            in_grid(to, self@.columns as int, self@.rows as int),
        ensures
            r == clear_between(self@.walls, from, to),
    {
        assert(grid_of(self.walls@)[0].len() == self.column_count);
        Self::los_on_walls(&self.walls, from, to)
    }

    /// The direction opponent `i` picks toward `target`: the first of its
    /// preference order that it can step into.
    fn plan_direction(&self, i: usize, target: [i32; 2]) -> (r: Option<LookDirection>)
        requires
            self@.wf(),
            i < self@.players.len(),
            in_grid(target, self@.columns as int, self@.rows as int),
        ensures
            r == plan(self@.walls, self@.columns as int, self@.rows as int, self@.players, i as int, target),
    {
        let ghost g = self@;
        let me = self.players[i].get_position();
        assert(g.players[i as int].inv() && in_grid(me, g.columns as int, g.rows as int));
        let dx: i32 = target[0] - me[0];
        let dy: i32 = target[1] - me[1];
        let adx: i32 = if dx < 0 { -dx } else { dx };
        let ady: i32 = if dy < 0 { -dy } else { dy };
        let pref: [LookDirection; 4] = if adx > ady {
            if dx > 0 {
                [LookDirection::Right, LookDirection::Down, LookDirection::Up, LookDirection::Left]
            } else {
                [LookDirection::Left, LookDirection::Down, LookDirection::Up, LookDirection::Right]
            }
        } else {
            if dy > 0 {
                [LookDirection::Down, LookDirection::Right, LookDirection::Left, LookDirection::Up]
            } else {
                [LookDirection::Up, LookDirection::Right, LookDirection::Left, LookDirection::Down]
            }
        };
        let ghost prefs = preference(target[0] - me[0], target[1] - me[1]);
        assert(pref@ =~= prefs);
        let mut k: usize = 0;
        while k < 4
            invariant
                k <= 4,
                pref@ == prefs,
                prefs.len() == 4,
                self@ == g,
                g.wf(),
                i < g.players.len(),
                me == g.players[i as int].position,
                in_grid(me, g.columns as int, g.rows as int),
                plan(g.walls, g.columns as int, g.rows as int, g.players, i as int, target) == first_free(
                    g.walls,
                    g.columns as int,
                    g.rows as int,
                    g.players,
                    i as int,
                    prefs,
                    k as int,
                ),
            decreases 4 - k,
        {
            let d = pref[k];
            let t = d.position_from(&me);
            let mut is_blocked = !is_in_bounds(t[0], t[1], self.column_count, self.row_count);
            if !is_blocked {
                let x = t[0] as usize;
                let y = t[1] as usize;
                assert(self.walls@[y as int]@.len() == self.column_count) by {
                    assert(grid_of(self.walls@)[y as int].len() == self.column_count);
                }
                assert(tile_at(g.walls, x as int, y as int) == self.walls@[y as int]@[x as int]);
                is_blocked = self.walls[y][x].is_solid();
            }
            if !is_blocked {
                is_blocked = self.occupied_by_other(i, t);
            }
            if !is_blocked {
                return Some(d);
            }
            k = k + 1;
        }
        None
    }

    /// What opponent `i` decides this frame: its movement direction, its
    /// facing, whether it fires, and its new brain.
    fn decide(&self, i: usize, br: BotBrain, dt: u64, human: [i32; 2]) -> (r: (Option<LookDirection>, LookDirection, bool, BotBrain))
        requires
            self@.wf(),
            1 <= i < self@.players.len(),
            human == self@.players[0].position,
        ensures
            ({
                let bt = bot_turn(self@.walls, self@.columns as int, self@.rows as int, self@.players, i as int, br, dt);
                intent(r.0) == bt.0.moving && r.1 == bt.0.direction && r.2 == bt.0.firing && r.3 == bt.1
            }),
    {
        let ghost g = self@;
        assert(g.players[0].inv() && in_grid(human, g.columns as int, g.rows as int));
        assert(g.players[i as int].inv() && in_grid(g.players[i as int].position, g.columns as int, g.rows as int));
        let think = br.think_timer.saturating_sub(dt);
        let fire = br.fire_cd.saturating_sub(dt);
        let me = self.players[i].get_position();
        let chosen = if think == 0 {
            self.plan_direction(i, human)
        } else {
            None
        };
        let current = *self.players[i].get_direction();
        let mut al = false;
        let mut facing = current;
        if me[0] == human[0] {
            al = true;
            facing = if human[1] > me[1] { LookDirection::Down } else { LookDirection::Up };
        } else if me[1] == human[1] {
            al = true;
            facing = if human[0] > me[0] { LookDirection::Right } else { LookDirection::Left };
        }
        let dx: i32 = if human[0] > me[0] { human[0] - me[0] } else { me[0] - human[0] };
        let dy: i32 = if human[1] > me[1] { human[1] - me[1] } else { me[1] - human[1] };
        let los_ok = al && self.clear_line_of_sight(me, human);
        let close = al && dx + dy <= 2;
        let want = (los_ok || close) && fire == 0;
        let brain = BotBrain {
            think_timer: if think == 0 { BOT_THINK_INTERVAL } else { think },
            fire_cd: if want { BOT_FIRE_COOLDOWN } else { fire },
        };
        (chosen, facing, want, brain)
    }

    /// Every living opponent plans after `dt`; nothing happens outside play.
    fn think_bots(&mut self, dt: u64)
        requires
            old(self)@.wf(),
        ensures
            final(self)@.wf(),
            final(self)@ == old(self)@.bots_thought(dt),
    {
        let ghost g0 = self@;
        if self.state != GameState::Playing {
            return;
        }
        let human = self.players[0].get_position();
        let n = self.players.len();
        let mut i: usize = 1;
        while i < n
            invariant
                self@.wf(),
                1 <= i <= n,
                n == g0.players.len(),
                self.players@.len() == n,
                self@.brains.len() == n,
                g0.state is Playing,
                human == g0.players[0].position,
                self@ == (GameView { players: self@.players, brains: self@.brains, ..g0 }),
                same_ground(self@.players, g0.players),
                forall|j: int|
                    0 <= j < n ==> (#[trigger] self@.players[j]) == if j < i && thinks(g0.players, g0.brains, j) {
                        bot_turn(g0.walls, g0.columns as int, g0.rows as int, g0.players, j, g0.brains[j]->Some_0, dt).0
                    } else {
                        g0.players[j]
                    },
                forall|j: int|
                    0 <= j < n ==> (#[trigger] self@.brains[j]) == if j < i && thinks(g0.players, g0.brains, j) {
                        Some(bot_turn(g0.walls, g0.columns as int, g0.rows as int, g0.players, j, g0.brains[j]->Some_0, dt).1)
                    } else {
                        g0.brains[j]
                    },
            decreases n - i,
        {
            let ghost prev = self@;
            let slot = self.bot_brains[i];
            assert(prev.brains[i as int] == g0.brains[i as int]);
            assert(prev.players[i as int] == g0.players[i as int]);
            match slot {
                None => {},
                Some(br) => {
                    if self.players[i].get_is_alive() {
                        assert(thinks(g0.players, g0.brains, i as int));
                        assert(prev.players[0].position == g0.players[0].position);
                        let r = self.decide(i, br, dt, human);
                        proof {
                            lemma_same_ground_bot_turn(g0.walls, g0.columns as int, g0.rows as int, prev.players, g0.players, i as int, br, dt);
                        }
                        let ghost bt = bot_turn(g0.walls, g0.columns as int, g0.rows as int, g0.players, i as int, br, dt);
                        let ghost ps0 = self.players@;
                        self.players[i].set_move_pressed(0, false);
                        self.players[i].set_move_pressed(1, false);
                        self.players[i].set_move_pressed(2, false);
                        self.players[i].set_move_pressed(3, false);
                        match r.0 {
                            Some(d) => {
                                self.players[i].set_move_pressed(Self::dir_index(d), true);
                            },
                            None => {},
                        }
                        self.players[i].set_direction(r.1);
                        self.players[i].set_fire_pressed(r.2);
                        proof {
                            assert(self.players@[i as int]@.moving =~= bt.0.moving);
                            assert(self.players@[i as int]@ == bt.0);
                            lemma_player_views_update(ps0, i as int, self.players@[i as int]);
                        }
                        self.bot_brains.set(i, Some(r.3));
                        proof {
                            assert(same_ids(prev.players, self@.players)) by {
                                assert forall|j: int| 0 <= j < prev.players.len() implies (#[trigger] prev.players[j]).id == self@.players[j].id by {
                                    if j == i {
                                        assert(prev.players[j] == g0.players[j]);
                                    }
                                }
                            }
                            lemma_same_ids(prev.players, self@.players);
                            assert forall|j: int| 0 <= j < n implies (#[trigger] self@.players[j]).alive == g0.players[j].alive
                                && self@.players[j].position == g0.players[j].position by {
                                assert(prev.players[j].alive == g0.players[j].alive);
                            }
                            assert(self@.players == prev.players.update(i as int, self@.players[i as int]));
                            lemma_players_wf_update(prev.players, i as int, self@.players[i as int], g0.columns as int, g0.rows as int);
                        }
                    }
                },
            }
            i = i + 1;
        }
        proof {
            assert(self@.players =~= g0.bots_thought(dt).players);
            assert(self@.brains =~= g0.bots_thought(dt).brains);
        }
    }

    /// Every empty tile, row by row.
    fn empty_positions(&self) -> (r: Vec<[i32; 2]>)
        requires
            self@.wf(),
        ensures
            r@ == empty_tiles(self@.walls),
    {
        let ghost g = self@.walls;
        let mut r: Vec<[i32; 2]> = Vec::new();
        let mut y: usize = 0;
        while y < self.walls.len()
            invariant
                self@.wf(),
                g == self@.walls,
                y <= self.walls@.len(),
                r@ == empties_upto(g, y as int),
            decreases self.walls@.len() - y,
        {
            let ghost base = r@;
            let mut x: usize = 0;
            assert(g[y as int].len() == self.column_count);
            while x < self.walls[y].len()
                invariant
                    self@.wf(),
                    g == self@.walls,
                    y < self.walls@.len(),
                    x <= self.walls@[y as int]@.len(),
                    self.walls@[y as int]@ == g[y as int],
                    g[y as int].len() == self.column_count,
                    r@ == base + empties_in_row(g[y as int], y as int, x as int),
                decreases self.walls@[y as int]@.len() - x,
            {
                if self.walls[y][x].variant() == WallType::Empty {
                    r.push([x as i32, y as i32]);
                }
                assert(r@ =~= base + empties_in_row(g[y as int], y as int, x + 1));
                x = x + 1;
            }
            assert(r@ =~= empties_upto(g, y + 1));
            y = y + 1;
        }
        r
    }

    /// Pickup timer `k` after `dt`, with its spawn attempt when due.
    fn spawn_from(&mut self, k: usize, dt: u64, draw: usize)
        requires
            old(self)@.wf(),
            k < 2,
        ensures
            final(self)@.wf(),
            ({
                let sp = PickupSpawnSystem { elapsed: sat_add(old(self)@.spawners[k as int].elapsed, dt), ..old(self)@.spawners[k as int] };
                let r = spawn_attempt(old(self)@.pickups, sp, old(self)@.walls, old(self)@.max_pickups as int, draw);
                final(self)@ == (GameView { pickups: r.0, spawners: old(self)@.spawners.update(k as int, r.1), ..old(self)@ })
            }),
    {
        let ghost g0 = self@;
        let ghost sp = PickupSpawnSystem { elapsed: sat_add(g0.spawners[k as int].elapsed, dt), ..g0.spawners[k as int] };
        let ghost r = spawn_attempt(g0.pickups, sp, g0.walls, g0.max_pickups as int, draw);
        self.pickup_spawn_systems[k].on_frame(dt);
        assert(self@.spawners == g0.spawners.update(k as int, sp));
        match self.pickup_spawn_systems[k].get_pickup_to_spawn() {
            Some(pickup) => {
                let mut pickup = pickup;
                if self.pickups.len() < self.max_pickups {
                    let empties = self.empty_positions();
                    if empties.len() > 0 {
                        pickup.set_position(empties[draw % empties.len()]);
                        self.pickups.push(pickup);
                    }
                }
                self.pickup_spawn_systems[k].reset_spawn_timer();
                assert(self@.pickups == r.0);
                assert(self@.spawners =~= g0.spawners.update(k as int, r.1));
            },
            None => {
                assert(self@.spawners =~= g0.spawners.update(k as int, r.1));
            },
        }
    }

    /// Both pickup timers after `dt`.
    fn spawn_pickups(&mut self, dt: u64, first_draw: usize, second_draw: usize)
        requires
            old(self)@.wf(),
        ensures
            final(self)@.wf(),
            final(self)@ == old(self)@.pickups_spawned(dt, first_draw, second_draw),
    {
        let ghost g0 = self@;
        self.spawn_from(0, dt, first_draw);
        self.spawn_from(1, dt, second_draw);
        assert(self@.spawners =~= g0.pickups_spawned(dt, first_draw, second_draw).spawners);
    }

    /// Every animation after `dt`; finished ones are dropped.
    fn advance_animations(&mut self, dt: u64)
        requires
            old(self)@.wf(),
        ensures
            final(self)@.wf(),
            final(self)@ == old(self)@.animations_advanced(dt),
    {
        let ghost g0 = self@;
        let ghost orig = g0.animations;
        let ghost n = orig.len() as int;
        let ghost mut j: int = 0;
        let mut i: usize = 0;
        while i < self.animations.len()
            invariant
                0 <= j <= n,
                n == orig.len(),
                i as int == advance_all(orig, dt, j).len(),
                self@.animations == advance_all(orig, dt, j) + orig.subrange(j, n),
                self@ == (GameView { animations: self@.animations, ..g0 }),
                self@.wf(),
            decreases self.animations@.len() - i,
        {
            let ghost before = self.animations@;
            assert(self@.animations[i as int] == orig[j]);
            assert(orig[j].inv());
            self.animations[i].on_frame(dt);
            assert(animation_views(self.animations@) =~= animation_views(before).update(i as int, orig[j].advanced(dt)));
            if self.animations[i].is_finished() {
                let ghost mid = self.animations@;
                self.animations.remove(i);
                proof {
                    assert(animation_views(self.animations@) =~= animation_views(mid).remove(i as int));
                    assert(self@.animations =~= advance_all(orig, dt, j + 1) + orig.subrange(j + 1, n));
                    j = j + 1;
                }
            } else {
                proof {
                    assert(self@.animations =~= advance_all(orig, dt, j + 1) + orig.subrange(j + 1, n));
                    j = j + 1;
                }
                i = i + 1;
            }
        }
        proof {
            if j < n {
                assert(self@.animations.len() > i);
            }
            assert(self@.animations =~= advance_all(orig, dt, n));
        }
    }

    /// Every reload timer after `dt`.
    fn advance_reloads(&mut self, dt: u64)
        requires
            old(self)@.wf(),
        ensures
            final(self)@.wf(),
            final(self)@ == old(self)@.reloads_advanced(dt),
    {
        let ghost g0 = self@;
        let n = self.players.len();
        let mut i: usize = 0;
        while i < n
            invariant
                self@.wf(),
                i <= n,
                n == g0.players.len(),
                self.players@.len() == n,
                self@ == (GameView { players: self@.players, ..g0 }),
                forall|m: int|
                    0 <= m < n ==> (#[trigger] self@.players[m]) == if m < i {
                        PlayerView { reload: sat_add(g0.players[m].reload, dt), ..g0.players[m] }
                    } else {
                        g0.players[m]
                    },
            decreases n - i,
        {
            let ghost ps0 = self.players@;
            let ghost prev = self@;
            assert(prev.players[i as int] == g0.players[i as int]);
            self.players[i].on_frame(dt);
            proof {
                lemma_player_views_update(ps0, i as int, self.players@[i as int]);
                assert(self@.players[i as int] == PlayerView { reload: sat_add(g0.players[i as int].reload, dt), ..g0.players[i as int] });
                assert forall|m: int|
                    0 <= m < n implies (#[trigger] self@.players[m]) == if m < i + 1 {
                        PlayerView { reload: sat_add(g0.players[m].reload, dt), ..g0.players[m] }
                    } else {
                        g0.players[m]
                    } by {
                    if m != i {
                        assert(self@.players[m] == prev.players[m]);
                    }
                }
                assert(self@.players == prev.players.update(i as int, self@.players[i as int]));
                lemma_players_wf_update(prev.players, i as int, self@.players[i as int], g0.columns as int, g0.rows as int);
            }
            i = i + 1;
        }
        assert(self@.players =~= g0.reloads_advanced(dt).players);
    }

    /// The win/lose evaluation: while playing, the human wins once no
    /// opponent is alive and the human is alive or holds a life; the human
    /// loses once it is dead with no life left.
    fn check_victory(&mut self)
        requires
            old(self)@.wf(),
        ensures
            final(self)@.wf(),
            final(self)@ == old(self)@.judged(),
    {
        if self.state != GameState::Playing {
            return;
        }
        let human_in_play = self.players[0].get_is_alive() || self.players[0].can_respawn();
        let mut any_enemy_alive = false;
        let mut j: usize = 1;
        while j < self.players.len()
            invariant
                1 <= j <= self.players@.len(),
                any_enemy_alive == exists|m: int| 1 <= m < j && (#[trigger] self@.players[m]).alive,
            decreases self.players@.len() - j,
        {
            assert(self@.players[j as int] == self.players@[j as int]@);
            if self.players[j].get_is_alive() {
                any_enemy_alive = true;
            }
            j = j + 1;
        }
        if human_in_play && !any_enemy_alive {
            self.state = GameState::Won;
            self.state_time = 0;
        } else if !human_in_play {
            self.state = GameState::Lost;
            self.state_time = 0;
        }
    }

    /// One frame of `dt`, with `first_draw` and `second_draw` picking the
    /// tiles of any armor and health pickups that spawn.
    pub fn update_with_draws(&mut self, dt: u64, first_draw: usize, second_draw: usize)
        requires
            old(self)@.wf(),
        ensures
            final(self)@.wf(),
            final(self)@ == old(self)@.framed(dt, first_draw, second_draw),
    {
        self.accumulated_time = self.accumulated_time.saturating_add(dt);
        self.state_time = self.state_time.saturating_add(dt);
        self.advance_animations(dt);
        self.advance_reloads(dt);
        self.think_bots(dt);
        self.spawn_pickups(dt, first_draw, second_draw);
        if self.accumulated_time - self.last_update >= self.update_interval {
            self.last_update = self.accumulated_time;
            self.resolve_tick();
        }
        self.check_victory();
    }

    /// One frame of `dt` (microseconds). The tiles of spawning pickups are
    /// drawn at random.
    pub fn update_dt(&mut self, dt: u64)
        requires
            old(self)@.wf(),
        ensures
            final(self)@.wf(),
            exists|a: usize, b: usize| final(self)@ == old(self)@.framed(dt, a, b),
    {
        let first_draw = rand::random::<usize>();
        let second_draw = rand::random::<usize>();
        self.update_with_draws(dt, first_draw, second_draw);
    }

    /// The movement pass: every living combatant in id order moves and
    /// fires.
    fn move_players(&mut self)
        requires
            old(self)@.wf(),
        ensures
            final(self)@.wf(),
            final(self)@ == old(self)@.moved_all(),
    {
        let ghost g0 = self@;
        let n = self.players.len();
        let mut i: usize = 0;
        while i < n
            invariant
                self@.wf(),
                i <= n,
                n == g0.players.len(),
                self.players@.len() == n,
                (Moves { players: self@.players, bullets: self@.bullets }) == moves(
                    Moves { players: g0.players, bullets: g0.bullets },
                    g0.walls,
                    g0.columns as int,
                    g0.rows as int,
                    i as int,
                ),
                self@ == (GameView { players: self@.players, bullets: self@.bullets, ..g0 }),
            decreases n - i,
        {
            self.move_player(i);
            i = i + 1;
        }
    }

    /// The respawn pass: every dead combatant with a life left that asserts
    /// fire returns to its spawn tile, and a spawn marker shows there.
    fn respawn_players(&mut self)
        requires
            old(self)@.wf(),
        ensures
            final(self)@.wf(),
            final(self)@ == old(self)@.revived_all(),
    {
        let ghost g0 = self@;
        let ghost cols = g0.columns as int;
        let ghost rows = g0.rows as int;
        let n = self.players.len();
        let mut i: usize = 0;
        while i < n
            invariant
                self@.wf(),
                i <= n,
                n == g0.players.len(),
                self.players@.len() == n,
                cols == self@.columns,
                rows == self@.rows,
                (Revival { players: self@.players, animations: self@.animations }) == revive(
                    Revival { players: g0.players, animations: g0.animations },
                    i as int,
                ),
                self@ == (GameView { players: self@.players, animations: self@.animations, ..g0 }),
            decreases n - i,
        {
            let ghost prev = self@;
            if !self.players[i].get_is_alive() && self.players[i].get_is_fire_pressed() && self.players[i].can_respawn() {
                assert(prev.players[i as int].inv());
                let ghost ps0 = self.players@;
                self.players[i].respawn();
                proof {
                    lemma_player_views_update(ps0, i as int, self.players@[i as int]);
                }
                let at = self.players[i].get_position();
                let ghost anims = self.animations@;
                let e = Animation::new_spawn(at);
                self.animations.push(e);
                proof {
                    lemma_animation_views_push(anims, e);
                    assert(self@.players == prev.players.update(i as int, self@.players[i as int]));
                    lemma_players_wf_update(prev.players, i as int, self@.players[i as int], cols, rows);
                }
            }
            i = i + 1;
        }
    }

    /// Pickup collection: the first living combatant on a pickup's tile
    /// takes it.
    fn collect_pickups(&mut self)
        requires
            old(self)@.wf(),
        ensures
            final(self)@.wf(),
            final(self)@ == old(self)@.collected_all(),
    {
        let ghost g0 = self@;
        let ghost cols = g0.columns as int;
        let ghost rows = g0.rows as int;
        let n = self.pickups.len();
        let mut kept: Vec<Pickup> = Vec::new();
        let mut k: usize = 0;
        while k < n
            invariant
                self@.wf(),
                k <= n,
                n == g0.pickups.len(),
                self.pickups@ == g0.pickups,
                cols == self@.columns,
                rows == self@.rows,
                (Collection { players: self@.players, pickups: kept@ }) == collect(
                    Collection { players: g0.players, pickups: Seq::empty() },
                    g0.pickups,
                    k as int,
                ),
                self@ == (GameView { players: self@.players, ..g0 }),
            decreases n - k,
        {
            let ghost prev = self@;
            let pk = self.pickups[k];
            let j = self.first_alive_at(pk.position);
            proof {
                lemma_first_alive_at(prev.players, pk.position, 0);
            }
            if j < self.players.len() {
                assert(prev.players[j as int].inv());
                let ghost ps0 = self.players@;
                match pk.variant {
                    PickupType::Armor => {
                        self.players[j].add_armor();
                    },
                    PickupType::Health => {
                        self.players[j].add_health();
                    },
                }
                proof {
                    lemma_player_views_update(ps0, j as int, self.players@[j as int]);
                    assert(self@.players == prev.players.update(j as int, self@.players[j as int]));
                    lemma_players_wf_update(prev.players, j as int, self@.players[j as int], cols, rows);
                }
            } else {
                kept.push(pk);
            }
            k = k + 1;
        }
        self.pickups = kept;
    }

    /// One resolved tick.
    fn resolve_tick(&mut self)
        requires
            old(self)@.wf(),
        ensures
            final(self)@.wf(),
            final(self)@ == old(self)@.ticked(),
    {
        self.move_players();
        self.respawn_players();
        self.collect_pickups();
        self.update_bullets();
    }

    /// One projectile against terrain and combatants; returns whether it is
    /// still in flight. `wall_hit` and `target` say how the projectile fares
    /// against the terrain `w0` and the combatants `p0` of the start of the
    /// pass.
    fn strike_one(
        &mut self,
        b: Projectile,
        wall_hit: bool,
        target: usize,
        Ghost(keep): Ghost<Seq<bool>>,
        Ghost(w0): Ghost<Seq<Seq<Wall>>>,
        Ghost(p0): Ghost<Seq<PlayerView>>,
    ) -> (flying: bool)
        requires
            old(self)@.wf(),
            in_grid(b.position, old(self)@.columns as int, old(self)@.rows as int),
            wall_hit == hits_terrain(w0, b, old(self)@.columns as int, old(self)@.rows as int),
            in_grid(ahead(b), old(self)@.columns as int, old(self)@.rows as int) && !wall_hit ==> target
                == first_alive_at(p0, ahead(b), 0),
            p0.len() == old(self)@.players.len(),
        ensures
            final(self)@.wf(),
            strike_state(final(self)@, keep.push(flying)) == strike(
                strike_state(old(self)@, keep),
                b,
                w0,
                p0,
                old(self)@.columns as int,
                old(self)@.rows as int,
            ),
            final(self)@ == (GameView {
                walls: final(self)@.walls,
                players: final(self)@.players,
                animations: final(self)@.animations,
                ..old(self)@
            }),
            final(self)@.players.len() == old(self)@.players.len(),
            flying == flies_on(w0, p0, b, old(self)@.columns as int, old(self)@.rows as int),
    {
        let ghost g0 = self@;
        let t = b.next_position();
        if !is_in_bounds(t[0], t[1], self.column_count, self.row_count) {
            return false;
        }
        let x = t[0] as usize;
        let y = t[1] as usize;
        assert(self.walls@[y as int]@.len() == self.column_count) by {
            assert(grid_of(self.walls@)[y as int].len() == self.column_count);
        }
        if wall_hit {
            assert(tile_at(g0.walls, x as int, y as int) == self.walls@[y as int]@[x as int]);
            damage_tile(&mut self.walls, x, y);
            let ghost anims = self.animations@;
            let e = Animation::new_explosion(t);
            self.animations.push(e);
            proof {
                lemma_animation_views_push(anims, e);
                let w = tile_at(g0.walls, x as int, y as int);
                assert(self@.walls == crate::wall::with_tile(g0.walls, x as int, y as int, Wall { variant: crate::wall::damaged(w.variant), ..w }));
                assert(grid_wf(self@.walls, self@.columns as int)) by {
                    assert forall|i: int, j: int| 0 <= j < self@.walls.len() && 0 <= i < self@.columns implies (#[trigger] tile_at(self@.walls, i, j)).position == [i as i32, j as i32] by {
                        assert(tile_at(g0.walls, i, j).position == [i as i32, j as i32]);
                    }
                    assert forall|j: int| 0 <= j < self@.walls.len() implies (#[trigger] self@.walls[j].len()) == self@.columns by {
                        assert(g0.walls[j].len() == self@.columns);
                    }
                }
            }
            return false;
        }
        proof {
            lemma_first_alive_at(p0, t, 0);
        }
        if target < self.players.len() {
            if self.players[target].get_is_alive() {
                let k = target;
                assert(g0.players[k as int] == self.players@[k as int]@);
                assert(g0.players[k as int].inv());
                let ghost ps0 = self.players@;
                self.players[k].damage();
                proof {
                    lemma_player_views_update(ps0, k as int, self.players@[k as int]);
                    lemma_players_wf_update(g0.players, k as int, self@.players[k as int], g0.columns as int, g0.rows as int);
                }
            } else {
                assert(g0.players[target as int] == self.players@[target as int]@);
            }
            let ghost anims = self.animations@;
            let e = Animation::new_explosion(t);
            self.animations.push(e);
            proof {
                lemma_animation_views_push(anims, e);
                
            }
            return false;
        }
        true
    }

    /// Projectile resolution for one tick.
    fn update_bullets(&mut self)
        requires
            old(self)@.wf(),
        ensures
            final(self)@.wf(),
            final(self)@ == old(self)@.projectiles_resolved(),
    {
        let ghost g0 = self@;
        let ghost cols = g0.columns as int;
        let ghost rows = g0.rows as int;
        let ghost bs = g0.bullets;
        let n = self.bullets.len();
        let np = self.players.len();
        let mut was_alive: Vec<bool> = Vec::new();
        let mut j: usize = 0;
        while j < np
            invariant
                self@ == g0,
                np == g0.players.len(),
                j <= np,
                was_alive@.len() == j,
                forall|m: int| 0 <= m < j ==> #[trigger] was_alive@[m] == g0.players[m].alive,
            decreases np - j,
        {
            was_alive.push(self.players[j].get_is_alive());
            j = j + 1;
        }
        // how each projectile fares against the state at the start of the pass
        let mut wall_hits: Vec<bool> = Vec::new();
        let mut targets: Vec<usize> = Vec::new();
        let mut in_play: Vec<bool> = Vec::new();
        let mut i: usize = 0;
        while i < n
            invariant
                self@ == g0,
                g0.wf(),
                n == bs.len(),
                self.bullets@ == bs,
                cols == g0.columns,
                rows == g0.rows,
                i <= n,
                wall_hits@.len() == i,
                targets@.len() == i,
                in_play@.len() == i,
                forall|m: int| 0 <= m < i ==> #[trigger] wall_hits@[m] == hits_terrain(g0.walls, bs[m], cols, rows),
                forall|m: int| 0 <= m < i ==> #[trigger] in_play@[m] == (in_grid(ahead(bs[m]), cols, rows) && !wall_hits@[m]),
                forall|m: int|
                    0 <= m < i ==> in_grid(ahead(bs[m]), cols, rows) && !wall_hits@[m] ==> #[trigger] targets@[m]
                        == first_alive_at(g0.players, ahead(bs[m]), 0),
            decreases n - i,
        {
            let b = self.bullets[i];
            assert(in_grid(bs[i as int].position, cols, rows));
            let t = b.next_position();
            let mut wall_hit = false;
            let mut target: usize = 0;
            let inside = is_in_bounds(t[0], t[1], self.column_count, self.row_count);
            if inside {
                let x = t[0] as usize;
                let y = t[1] as usize;
                assert(self.walls@[y as int]@.len() == self.column_count) by {
                    assert(grid_of(self.walls@)[y as int].len() == self.column_count);
                }
                assert(tile_at(g0.walls, x as int, y as int) == self.walls@[y as int]@[x as int]);
                wall_hit = self.walls[y][x].is_solid();
                if !wall_hit {
                    target = self.first_alive_at(t);
                }
            }
            wall_hits.push(wall_hit);
            targets.push(target);
            in_play.push(inside && !wall_hit);
            i = i + 1;
        }
        let mut keep: Vec<bool> = Vec::new();
        i = 0;
        while i < n
            invariant
                self@.wf(),
                n == bs.len(),
                i <= n,
                self@.players.len() == g0.players.len(),
                wall_hits@.len() == n,
                targets@.len() == n,
                forall|m: int| 0 <= m < n ==> #[trigger] wall_hits@[m] == hits_terrain(g0.walls, bs[m], cols, rows),
                forall|m: int|
                    0 <= m < n ==> in_grid(ahead(bs[m]), cols, rows) && !wall_hits@[m] ==> #[trigger] targets@[m]
                        == first_alive_at(g0.players, ahead(bs[m]), 0),
                forall|m: int| 0 <= m < i ==> #[trigger] keep@[m] == flies_on(g0.walls, g0.players, bs[m], cols, rows),
                in_play@.len() == n,
                forall|m: int| 0 <= m < n ==> #[trigger] in_play@[m] == (in_grid(ahead(bs[m]), cols, rows) && !wall_hits@[m]),
                self@ == (GameView {
                    walls: self@.walls,
                    players: self@.players,
                    animations: self@.animations,
                    ..g0
                }),
                strike_state(self@, keep@) == strikes(strike_state(g0, Seq::empty()), bs, cols, rows, i as int),
                keep@.len() == i,
                self.bullets@ == bs,
                cols == self@.columns,
                rows == self@.rows,
                forall|m: int| 0 <= m < i ==> #[trigger] keep@[m] ==> in_grid(ahead(bs[m]), cols, rows),
            decreases n - i,
        {
            let b = self.bullets[i];
            assert(in_grid(bs[i as int].position, cols, rows));
            let flying = self.strike_one(b, wall_hits[i], targets[i], Ghost(keep@), Ghost(g0.walls), Ghost(g0.players));
            keep.push(flying);
            i = i + 1;
        }
        // kill credits
        let ghost gs = self@;
        let ghost sp = gs.players;
        assert(strike_state(gs, keep@) == strikes(strike_state(g0, Seq::empty()), bs, cols, rows, n as int));
        j = 0;
        while j < np
            invariant
                self@.wf(),
                j <= np,
                np == g0.players.len(),
                sp.len() == np,
                self.players@.len() == np,
                self.bullets@ == bs,
                n == bs.len(),
                cols == self@.columns,
                rows == self@.rows,
                ids_distinct(sp),
                self@ == (GameView { players: self@.players, ..gs }),
                self@.players == credit_kills(sp, g0.walls, g0.players, bs, cols, rows, j as int),
                same_ids(sp, self@.players),
                forall|m: int| 0 <= m < np ==> (#[trigger] self@.players[m]).alive == sp[m].alive,
                was_alive@.len() == np,
                forall|m: int| 0 <= m < np ==> #[trigger] was_alive@[m] == g0.players[m].alive,
                wall_hits@.len() == n,
                targets@.len() == n,
                in_play@.len() == n,
                forall|m: int| 0 <= m < n ==> #[trigger] wall_hits@[m] == hits_terrain(g0.walls, bs[m], cols, rows),
                forall|m: int|
                    0 <= m < n ==> in_grid(ahead(bs[m]), cols, rows) && !wall_hits@[m] ==> #[trigger] targets@[m]
                        == first_alive_at(g0.players, ahead(bs[m]), 0),
                forall|m: int| 0 <= m < n ==> #[trigger] in_play@[m] == (in_grid(ahead(bs[m]), cols, rows) && !wall_hits@[m]),
            decreases np - j,
        {
            let ghost prev = self@;
            let mut best: Option<u32> = None;
            let mut m: usize = 0;
            while m < n
                invariant
                    m <= n,
                    n == bs.len(),
                    self@ == prev,
                    self.bullets@ == bs,
                    j < np,
                    wall_hits@.len() == n,
                    targets@.len() == n,
                    in_play@.len() == n,
                    forall|q: int| 0 <= q < n ==> #[trigger] wall_hits@[q] == hits_terrain(g0.walls, bs[q], cols, rows),
                    forall|q: int|
                        0 <= q < n ==> in_grid(ahead(bs[q]), cols, rows) && !wall_hits@[q] ==> #[trigger] targets@[q]
                            == first_alive_at(g0.players, ahead(bs[q]), 0),
                    forall|q: int| 0 <= q < n ==> #[trigger] in_play@[q] == (in_grid(ahead(bs[q]), cols, rows) && !wall_hits@[q]),
                    best == crate::rules::killer(g0.walls, g0.players, bs, cols, rows, j as int, m as int),
                decreases n - m,
            {
                assert(crate::rules::aims_at(g0.walls, g0.players, bs[m as int], cols, rows, j as int) == (in_play@[m as int] && targets@[m as int] == j));
                if in_play[m] && targets[m] == j {
                    let id = self.bullets[m].owner_id;
                    best = match best {
                        None => Some(id),
                        Some(b) => Some(if b < id { b } else { id }),
                    };
                }
                m = m + 1;
            }
            if was_alive[j] && !self.players[j].get_is_alive() {
                match best {
                    Some(id) => {
                        let c = self.find_player_by_id(id);
                        proof {
                            lemma_first_with_id_same(sp, self@.players, id, 0);
                            lemma_first_with_id(sp, id, 0);
                        }
                        if c < np {
                            let ghost ps1 = self.players@;
                            assert(prev.players[c as int].inv());
                            self.players[c].inc_kill_count();
                            proof {
                                lemma_player_views_update(ps1, c as int, self.players@[c as int]);
                                lemma_players_wf_update(prev.players, c as int, self@.players[c as int], cols, rows);
                                assert(same_ids(prev.players, self@.players));
                                lemma_same_ids(prev.players, self@.players);
                            }
                        }
                    },
                    None => {},
                }
            }
            proof {
                assert(self@.players =~= credit_kills(sp, g0.walls, g0.players, bs, cols, rows, j + 1));
            }
            j = j + 1;
        }
        let ghost keep1 = keep@;
        let ghost base = self@.animations;
        let ghost g1 = self@;
        // which projectiles survive a meeting
        let mut live: Vec<bool> = Vec::new();
        i = 0;
        while i < n
            invariant
                self@ == g1,
                g1.bullets == bs,
                g1.columns == cols,
                g1.rows == rows,
                bullets_wf(bs, cols, rows),
                n == bs.len(),
                keep@ == keep1,
                keep1.len() == n,
                i <= n,
                live@.len() == i,
                forall|m: int| 0 <= m < i ==> #[trigger] live@[m] == survives(bs, keep1, m),
            decreases n - i,
        {
            let mut shot = false;
            let mut j: usize = 0;
            while j < n
                invariant
                    self@ == g1,
                    g1.bullets == bs,
                    bullets_wf(bs, cols, rows),
                    g1.columns == cols,
                    g1.rows == rows,
                    n == bs.len(),
                    keep@ == keep1,
                    keep1.len() == n,
                    i < n,
                    j <= n,
                    shot == exists|m: int| 0 <= m < j && m != i && #[trigger] keep1[m] && collide(bs[i as int], bs[m]),
                decreases n - j,
            {
                if j != i && keep[j] && collides(&self.bullets[i], &self.bullets[j]) {
                    shot = true;
                }
                j = j + 1;
            }
            live.push(keep[i] && !shot);
            i = i + 1;
        }
        // one explosion per meeting pair
        i = 0;
        while i < n
            invariant
                self@ == (GameView { animations: self@.animations, ..g1 }),
                g1.wf(),
                g1.bullets == bs,
                g1.columns == cols,
                g1.rows == rows,
                n == bs.len(),
                keep@ == keep1,
                keep1.len() == n,
                i <= n,
                self@.animations == base + all_blasts(bs, keep1, i as int),
                animations_wf(self@.animations),
            decreases n - i,
        {
            let mut j: usize = i + 1;
            while j < n
                invariant
                    self@ == (GameView { animations: self@.animations, ..g1 }),
                    g1.wf(),
                    g1.bullets == bs,
                    g1.columns == cols,
                    g1.rows == rows,
                    n == bs.len(),
                    keep@ == keep1,
                    keep1.len() == n,
                    i < n,
                    i + 1 <= j <= n,
                    self@.animations == base + (all_blasts(bs, keep1, i as int) + pair_blasts(bs, keep1, i as int, j as int)),
                    animations_wf(self@.animations),
                decreases n - j,
            {
                if keep[i] && keep[j] && collides(&self.bullets[i], &self.bullets[j]) {
                    let ta = self.bullets[i].next_position();
                    let tb = self.bullets[j].next_position();
                    let t = if ta[1] < tb[1] || (ta[1] == tb[1] && ta[0] <= tb[0]) { ta } else { tb };
                    let ghost anims = self.animations@;
                    let e = Animation::new_explosion(t);
                    self.animations.push(e);
                    proof {
                        lemma_animation_views_push(anims, e);
                        assert(self@.animations =~= base + (all_blasts(bs, keep1, i as int) + pair_blasts(bs, keep1, i as int, j + 1)));
                    }
                } else {
                    assert(pair_blasts(bs, keep1, i as int, j + 1) =~= pair_blasts(bs, keep1, i as int, j as int));
                }
                j = j + 1;
            }
            assert(all_blasts(bs, keep1, i + 1) == all_blasts(bs, keep1, i as int) + pair_blasts(bs, keep1, i as int, n as int));
            assert(self@.animations =~= base + all_blasts(bs, keep1, i + 1));
            i = i + 1;
        }
        // the survivors move on
        let ghost g2 = self@;
        let mut next: Vec<Projectile> = Vec::new();
        i = 0;
        while i < n
            invariant
                self@ == g2,
                g2.bullets == bs,
                g2.columns == cols,
                g2.rows == rows,
                bullets_wf(bs, cols, rows),
                n == bs.len(),
                keep1.len() == n,
                live@.len() == n,
                forall|m: int| 0 <= m < n ==> #[trigger] live@[m] == survives(bs, keep1, m),
                forall|m: int| 0 <= m < n ==> #[trigger] keep1[m] ==> in_grid(ahead(bs[m]), cols, rows),
                i <= n,
                next@ == flown(bs, keep1, i as int),
                bullets_wf(next@, cols, rows),
            decreases n - i,
        {
            if live[i] {
                let b = self.bullets[i];
                let t = b.next_position();
                next.push(Projectile { position: t, ..b });
            }
            proof {
                if live@[i as int] {
                    assert(next@ =~= flown(bs, keep1, i + 1));
                } else {
                    assert(next@ =~= flown(bs, keep1, i + 1));
                }
            }
            i = i + 1;
        }
        self.bullets = next;
    }

    /// A new game on a `column_count` by `row_count` grid of random terrain,
    /// with the human and three opponents at the corners.
    pub fn new(column_count: u8, row_count: u8) -> (g: Game)
        requires
            column_count >= 1,
            row_count >= 1,
        ensures
            g@.wf(),
            g@ == fresh_game(column_count, row_count, g@.walls, initial_players(column_count, row_count)),
            fresh_terrain(g@.walls, column_count as int, row_count as int, g@.players),
    {
        let c = column_count as i32 - 1;
        let r = row_count as i32 - 1;
        let mut players: Vec<Player> = Vec::new();
        players.push(Player::new(0, [0, 0], LookDirection::Down));
        players.push(Player::new(1, [c, r], LookDirection::Up));
        players.push(Player::new(2, [0, r], LookDirection::Up));
        players.push(Player::new(3, [c, 0], LookDirection::Down));
        assert(player_views(players@) =~= initial_players(column_count, row_count));
        let walls = build_terrain(column_count, row_count, &players);
        Game::from_parts(column_count, row_count, walls, players)
    }

    /// A new game on the default grid.
    pub fn new_default() -> (g: Game)
        ensures
            g@.wf(),
            g@ == fresh_game(COLUMN_COUNT, ROW_COUNT, g@.walls, initial_players(COLUMN_COUNT, ROW_COUNT)),
            fresh_terrain(g@.walls, COLUMN_COUNT as int, ROW_COUNT as int, g@.players),
    {
        Game::new(COLUMN_COUNT, ROW_COUNT)
    }

    /// A full restart: fresh random terrain, nothing in flight or lying
    /// around, every combatant back at its spawn with full lives and no
    /// kills, timers and clock at zero, and the menu phase.
    pub fn reset(&mut self)
        requires
            old(self)@.wf(),
        ensures
            final(self)@.wf(),
            fresh_terrain(final(self)@.walls, old(self)@.columns as int, old(self)@.rows as int, old(self)@.players),
            final(self)@ == (GameView {
                walls: final(self)@.walls,
                players: Seq::new(
                    old(self)@.players.len(),
                    |i: int| (PlayerView { lives: PLAYER_LIVES, kills: 0, ..old(self)@.players[i] }).respawned(),
                ),
                pickups: Seq::empty(),
                bullets: Seq::empty(),
                animations: Seq::empty(),
                spawners: seq![
                    PickupSpawnSystem { elapsed: 0, ..old(self)@.spawners[0] },
                    PickupSpawnSystem { elapsed: 0, ..old(self)@.spawners[1] },
                ],
                accumulated: 0,
                last_update: 0,
                state: GameState::Menu,
                state_time: 0,
                ..old(self)@
            }),
    {
        let ghost g0 = self@;
        self.walls = build_terrain(self.column_count, self.row_count, &self.players);
        let ghost w1 = self@.walls;
        self.pickups.clear();
        self.bullets.clear();
        self.animations.clear();
        let n = self.players.len();
        let mut i: usize = 0;
        while i < n
            invariant
                i <= n,
                n == g0.players.len(),
                self.players@.len() == n,
                forall|m: int|
                    0 <= m < n ==> (#[trigger] self@.players[m]) == if m < i {
                        (PlayerView { lives: PLAYER_LIVES, kills: 0, ..g0.players[m] }).respawned()
                    } else {
                        g0.players[m]
                    },
                players_wf(g0.players, g0.columns as int, g0.rows as int),
                self@ == (GameView { players: self@.players, walls: w1, pickups: Seq::empty(), bullets: Seq::empty(), animations: animation_views(self.animations@), ..g0 }),
                fresh_terrain(w1, g0.columns as int, g0.rows as int, g0.players),
                self.animations@.len() == 0,
            decreases n - i,
        {
            let ghost ps0 = self.players@;
            let ghost prev = self@;
            assert(prev.players[i as int] == g0.players[i as int]);
            assert(g0.players[i as int].inv());
            self.players[i].reset();
            proof {
                lemma_player_views_update(ps0, i as int, self.players@[i as int]);
                assert forall|m: int|
                    0 <= m < n implies (#[trigger] self@.players[m]) == if m < i + 1 {
                        (PlayerView { lives: PLAYER_LIVES, kills: 0, ..g0.players[m] }).respawned()
                    } else {
                        g0.players[m]
                    } by {
                    if m != i {
                        assert(self@.players[m] == prev.players[m]);
                    }
                }
            }
            i = i + 1;
        }
        self.pickup_spawn_systems[0].reset_spawn_timer();
        self.pickup_spawn_systems[1].reset_spawn_timer();
        self.accumulated_time = 0;
        self.last_update = 0;
        self.state = GameState::Menu;
        self.state_time = 0;
        proof {
            assert(self@.animations =~= Seq::<AnimationView>::empty());
            assert(self@.spawners =~= seq![
                PickupSpawnSystem { elapsed: 0, ..g0.spawners[0] },
                PickupSpawnSystem { elapsed: 0, ..g0.spawners[1] },
            ]);
            assert(self@.players =~= Seq::new(
                g0.players.len(),
                |i: int| (PlayerView { lives: PLAYER_LIVES, kills: 0, ..g0.players[i] }).respawned(),
            ));
            assert(players_wf(self@.players, g0.columns as int, g0.rows as int)) by {
                assert forall|m: int| 0 <= m < n implies (#[trigger] self@.players[m]).inv() && in_grid(self@.players[m].position, g0.columns as int, g0.rows as int)
                    && in_grid(self@.players[m].spawn, g0.columns as int, g0.rows as int) by {
                    assert(g0.players[m].inv());
                }
            }
        }
    }

    /// The combatants, human first.
    pub fn players(&self) -> (r: &[Player])
        ensures
            player_views(r@) == self@.players,
    {
        self.players.as_slice()
    }

    /// The terrain, row by row.
    pub fn walls(&self) -> (r: &Vec<Vec<Wall>>)
        ensures
            grid_of(r@) == self@.walls,
    {
        &self.walls
    }

    pub fn pickups(&self) -> (r: &[Pickup])
        ensures
            r@ == self@.pickups,
    {
        self.pickups.as_slice()
    }

    pub fn bullets(&self) -> (r: &[Projectile])
        ensures
            r@ == self@.bullets,
    {
        self.bullets.as_slice()
    }

    pub fn animations(&self) -> (r: &[Animation])
        ensures
            animation_views(r@) == self@.animations,
    {
        self.animations.as_slice()
    }

    /// Time gathered since the last resolved tick; with `tick_interval` it
    /// gives the progress toward the next tick.
    pub fn time_since_tick(&self) -> (r: u64)
        requires
            self@.wf(),
        ensures
            r == self@.accumulated - self@.last_update,
    {
        self.accumulated_time - self.last_update
    }

    pub fn tick_interval(&self) -> (r: u64)
        ensures
            r == self@.interval,
    {
        self.update_interval
    }

    /// Whether the tile the human faces is off the grid or solid.
    pub fn human_facing_blocked(&self) -> (r: bool)
        requires
            self@.wf(),
        ensures
            ({
                let t = crate::transform::step(self@.players[0].direction, self@.players[0].position);
                r == (!in_grid(t, self@.columns as int, self@.rows as int) || crate::wall::solid(crate::wall::variant_at(self@.walls, t)))
            }),
    {
        assert(self@.players[0].inv() && in_grid(self@.players[0].position, self@.columns as int, self@.rows as int));
        let p = self.players[0].get_position();
        let t = self.players[0].get_direction().position_from(&p);
        if !is_in_bounds(t[0], t[1], self.column_count, self.row_count) {
            return true;
        }
        let x = t[0] as usize;
        let y = t[1] as usize;
        assert(self.walls@[y as int]@.len() == self.column_count) by {
            assert(grid_of(self.walls@)[y as int].len() == self.column_count);
        }
        assert(tile_at(self@.walls, x as int, y as int) == self.walls@[y as int]@[x as int]);
        self.walls[y][x].is_solid()
    }

    pub fn state(&self) -> (r: GameState)
        ensures
            r == self@.state,
    {
        self.state
    }

    /// Time spent in the current phase.
    pub fn state_time(&self) -> (r: u64)
        ensures
            r == self@.state_time,
    {
        self.state_time
    }

    /// Starts (or resumes) play.
    pub fn resume(&mut self)
        ensures
            final(self)@ == (GameView { state: GameState::Playing, state_time: 0, ..old(self)@ }),
    {
        self.state = GameState::Playing;
        self.state_time = 0;
    }

    /// Sets the movement intent (up, right, down, left) and fire intent of
    /// combatant `i`.
    pub fn set_player_input(&mut self, i: usize, pressed: [bool; 4], fire: bool)
        requires
            old(self)@.wf(),
            i < old(self)@.players.len(),
        ensures
            final(self)@.wf(),
            final(self)@ == (GameView {
                players: old(self)@.players.update(
                    i as int,
                    PlayerView { moving: pressed@, firing: fire, ..old(self)@.players[i as int] },
                ),
                ..old(self)@
            }),
    {
        let ghost old_players = self.players@;
        self.players[i].set_move_pressed(0, pressed[0]);
        self.players[i].set_move_pressed(1, pressed[1]);
        self.players[i].set_move_pressed(2, pressed[2]);
        self.players[i].set_move_pressed(3, pressed[3]);
        self.players[i].set_fire_pressed(fire);
        assert(self.players@[i as int]@.moving =~= pressed@);
        assert(player_views(self.players@) =~= player_views(old_players).update(
            i as int,
            PlayerView { moving: pressed@, firing: fire, ..player_views(old_players)[i as int] },
        ));
    }
}

} // verus!
