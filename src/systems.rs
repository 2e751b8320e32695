use vstd::prelude::*;

use crate::components::{Active, Block, Position};
use crate::resources::{Actions, Clock};
use crate::settings::Settings;
use crate::world::{at_most_one_active, has_active, lemma_cell_index, lemma_wf_entities, GameMap, WorldModel, World};

verus! {

/// Both cell sides of valid settings are positive.
pub proof fn lemma_cells_positive(st: Settings)
    requires
        st.wf(),
    ensures
        st.cell_width_sub() > 0,
        st.cell_height_sub() > 0,
{
    assert(st.width_sub() >= st.cells_wide as int);
    assert(st.height_sub() >= st.cells_high as int);
    vstd::arithmetic::div_mod::lemma_div_non_zero(st.width_sub(), st.cells_wide as int);
    vstd::arithmetic::div_mod::lemma_div_non_zero(st.height_sub(), st.cells_high as int);
}

/// Where a block's anchor would be after falling for `dt` nanoseconds,
/// wrapped round the window height.
pub open spec fn fall(b: Block, dt: int, st: Settings) -> int {
    (b.position.y + dt * b.drop_speed.0) % st.height_sub()
}

/// The fall reaches the floor.
pub open spec fn lands(b: Block, dt: int, st: Settings) -> bool {
    fall(b, dt, st) >= st.y_max()
}

/// A block after one drop tick of `dt` nanoseconds: an active block falls,
/// and on reaching the floor stops there and turns inactive.
pub open spec fn dropped(b: Block, dt: int, st: Settings) -> Block {
    if !b.active.0 {
        b
    } else if lands(b, dt, st) {
        Block {
            position: Position { y: st.y_max() as u64, ..b.position },
            active: Active(false),
            ..b
        }
    } else {
        Block { position: Position { y: fall(b, dt, st) as u64, ..b.position }, ..b }
    }
}

/// x one cell to the right, or 0 past the last column.
pub open spec fn shifted_right(x: int, st: Settings) -> int {
    if x + st.cell_width_sub() > st.x_max() {
        0
    } else {
        x + st.cell_width_sub()
    }
}

/// x one cell to the left, or the last column past the first.
pub open spec fn shifted_left(x: int, st: Settings) -> int {
    if x < st.cell_width_sub() {
        st.x_max()
    } else {
        x - st.cell_width_sub()
    }
}

/// An active block shifted one cell right or left; other blocks stay.
pub open spec fn moved(b: Block, right: bool, st: Settings) -> Block {
    if !b.active.0 {
        b
    } else {
        let x = if right {
            shifted_right(b.position.x as int, st)
        } else {
            shifted_left(b.position.x as int, st)
        };
        Block { position: Position { x: x as u64, ..b.position }, ..b }
    }
}

/// The grid cells that a block covers, as (column, row): its anchor cell, or
/// for a multi-cell piece the four cells at its offsets from the anchor cell.
pub open spec fn block_cells(b: Block, st: Settings) -> Seq<(int, int)> {
    let c = (b.position.x as int) / st.cell_width_sub();
    let r = (b.position.y as int) / st.cell_height_sub();
    match b.offsets {
        None => seq![(c, r)],
        Some(o) => Seq::new(4, |j: int| (c + o.0@[j].x, r + o.0@[j].y)),
    }
}

/// The grid with one cell marked occupied; a cell outside the grid marks
/// nothing.
pub open spec fn mark_cell(map: Seq<bool>, cell: (int, int), st: Settings) -> Seq<bool> {
    if 0 <= cell.0 < st.cells_wide && 0 <= cell.1 < st.cells_high {
        map.update(cell.0 * st.cells_high + cell.1, true)
    } else {
        map
    }
}

/// The grid with each of `cells` marked, in order.
pub open spec fn mark_cells(map: Seq<bool>, cells: Seq<(int, int)>, st: Settings) -> Seq<bool>
    decreases cells.len(),
{
    if cells.len() == 0 {
        map
    } else {
        mark_cell(mark_cells(map, cells.drop_last(), st), cells.last(), st)
    }
}

/// The grid with the cells of every inactive block of `blocks` marked.
pub open spec fn mark_blocks(map: Seq<bool>, blocks: Seq<Block>, st: Settings) -> Seq<bool>
    decreases blocks.len(),
{
    if blocks.len() == 0 {
        map
    } else {
        let m = mark_blocks(map, blocks.drop_last(), st);
        if blocks.last().active.0 {
            m
        } else {
            mark_cells(m, block_cells(blocks.last(), st), st)
        }
    }
}

impl WorldModel {
    /// The dropper: each active block falls by its speed times the time since
    /// the last drop; if one was active, the drop time becomes `now`, and if
    /// it landed a spawn is requested.
    pub open spec fn after_dropper(self, now: u64) -> WorldModel {
        let dt = now - self.clock.last_drop;
        let st = self.settings;
        if has_active(self.entities) {
            WorldModel {
                entities: self.entities.map_values(|b: Block| dropped(b, dt, st)),
                clock: Clock { last_drop: now, ..self.clock },
                actions: Actions {
                    spawn_block: self.actions.spawn_block || exists|i: int|
                        0 <= i < self.entities.len() && #[trigger] self.entities[i].active.0
                            && lands(self.entities[i], dt, st),
                    ..self.actions
                },
                ..self
            }
        } else {
            self
        }
    }

    /// The spawner: once the spawn interval has passed and a spawn is
    /// requested, a new active block is queued, the spawn time becomes `now`
    /// and the request is cleared; while another block is active the request
    /// waits.
    pub open spec fn after_spawner(self, now: u64) -> WorldModel {
        if now - self.clock.last_spawn > self.settings.spawn_debounce && self.actions.spawn_block
            && self.may_create(Block::spawned(self.settings)) {
            WorldModel {
                pending: self.pending.push(Block::spawned(self.settings)),
                clock: Clock { last_spawn: now, ..self.clock },
                actions: Actions { spawn_block: false, ..self.actions },
                ..self
            }
        } else {
            self
        }
    }

    /// The lateral step the movement system takes: `Some(true)` to the right,
    /// `Some(false)` to the left, `None` for none. Right goes first, and
    /// either needs the move interval to have passed.
    pub open spec fn lateral_step(self, now: u64) -> Option<bool> {
        let ready = now - self.clock.last_player_move > self.settings.move_debounce;
        if ready && self.actions.move_right {
            Some(true)
        } else if ready && self.actions.move_left {
            Some(false)
        } else {
            None
        }
    }

    /// The movement system: with a step to take and an active block, the
    /// active block shifts and the move time becomes `now`; both lateral
    /// intents are cleared in any case.
    pub open spec fn after_movement(self, now: u64) -> WorldModel {
        let cleared = Actions { move_left: false, move_right: false, ..self.actions };
        let st = self.settings;
        match self.lateral_step(now) {
            Some(right) if has_active(self.entities) => WorldModel {
                entities: self.entities.map_values(|b: Block| moved(b, right, st)),
                clock: Clock { last_player_move: now, ..self.clock },
                actions: cleared,
                ..self
            },
            _ => WorldModel { actions: cleared, ..self },
        }
    }

    /// The mapper: each cell under a landed block is marked occupied.
    pub open spec fn after_mapper(self) -> WorldModel {
        WorldModel { map: mark_blocks(self.map, self.entities, self.settings), ..self }
    }

    /// One tick: dropper, spawner, movement, ender and mapper in this order,
    /// then the blocks created during the tick are added.
    pub open spec fn after_tick(self, now: u64) -> WorldModel {
        self.after_dropper(now).after_spawner(now).after_movement(now).after_ender().after_mapper().after_maintain()
    }

    /// The ender: escape ends the run; nothing undoes that.
    pub open spec fn after_ender(self) -> WorldModel {
        WorldModel { kill_program: self.kill_program || self.keys.escape, ..self }
    }
}

/// Every block stays inside the window and no block turns active.
proof fn lemma_pointwise_keeps_wf(m0: WorldModel, m1: WorldModel)
    requires
        m0.wf(),
        m1.settings == m0.settings,
        m1.clock.wf(),
        m1.map.len() == m0.map.len(),
        m1.pending == m0.pending,
        m1.entities.len() == m0.entities.len(),
        forall|k: int|
            0 <= k < m1.entities.len() ==> (#[trigger] m1.entities[k]).in_window(m1.settings) && (
            m1.entities[k].active.0 ==> m0.entities[k].active.0),
    ensures
        m1.wf(),
{
    let a0 = m0.all_blocks();
    let a1 = m1.all_blocks();
    let n = m0.entities.len() as int;
    assert forall|k: int| 0 <= k < a1.len() implies #[trigger] a1[k].in_window(m1.settings) by {
        if k < n {
            assert(a1[k] == m1.entities[k]);
        } else {
            assert(a1[k] == a0[k]);
        }
    }
    assert forall|i: int, j: int|
        0 <= i < a1.len() && 0 <= j < a1.len() && #[trigger] a1[i].active.0
            && #[trigger] a1[j].active.0 implies i == j by {
        if i < n {
            assert(a1[i] == m1.entities[i]);
            assert(a0[i] == m0.entities[i]);
        } else {
            assert(a1[i] == a0[i]);
        }
        if j < n {
            assert(a1[j] == m1.entities[j]);
            assert(a0[j] == m0.entities[j]);
        } else {
            assert(a1[j] == a0[j]);
        }
    }
}

/// A dropped block lies inside the window when it did before.
proof fn lemma_dropped_in_window(b: Block, dt: int, st: Settings)
    requires
        st.wf(),
        b.in_window(st),
        dt >= 0,
    ensures
        dropped(b, dt, st).in_window(st),
        dropped(b, dt, st).active.0 ==> b.active.0,
        0 <= fall(b, dt, st) < st.height_sub(),
{
    lemma_cells_positive(st);
    assert(st.cell_height_sub() <= st.height_sub()) by {
        vstd::arithmetic::div_mod::lemma_div_is_ordered_by_denominator(
            st.height_sub(),
            1,
            st.cells_high as int,
        );
    }
    vstd::arithmetic::div_mod::lemma_mod_bound(b.position.y + dt * b.drop_speed.0, st.height_sub());
    assert(dt * b.drop_speed.0 >= 0) by (nonlinear_arith)
        requires
            dt >= 0,
    ;
}

/// One drop tick of `dt` nanoseconds on one block.
fn drop_block(b: &Block, dt: u64, st: &Settings) -> (r: Block)
    requires
        st.wf(),
    ensures
        r == dropped(*b, dt as int, *st),
{
    if !b.active.0 {
        return *b;
    }
    let h = st.height_subpixels();
    let y_max = st.height_subpixels() - st.cell_height();
    assert(dt * b.drop_speed.0 <= 0xffff_ffff_ffff_ffff * 0xffff_ffff_ffff_ffff)
        by (nonlinear_arith)
        requires
            dt <= 0xffff_ffff_ffff_ffff,
            b.drop_speed.0 <= 0xffff_ffff_ffff_ffff,
    ;
    let d: u128 = dt as u128 * b.drop_speed.0 as u128;
    let total: u128 = b.position.y as u128 + d;
    let y: u64 = (total % h as u128) as u64;
    if y >= y_max {
        Block { position: Position { y: y_max, ..b.position }, active: Active(false), ..*b }
    } else {
        Block { position: Position { y, ..b.position }, ..*b }
    }
}

/// One lateral step of one block.
fn move_block(b: &Block, right: bool, st: &Settings) -> (r: Block)
    requires
        st.wf(),
        b.in_window(*st),
    ensures
        r == moved(*b, right, *st),
        r.in_window(*st),
{
    if !b.active.0 {
        return *b;
    }
    let cw = st.cell_width();
    let x_max = st.width_subpixels() - cw;
    let x = b.position.x;
    let nx = if right {
        if x + cw > x_max {
            0
        } else {
            x + cw
        }
    } else {
        if x < cw {
            x_max
        } else {
            x - cw
        }
    };
    Block { position: Position { x: nx, ..b.position }, ..*b }
}

impl GameMap {
    /// Marks one cell occupied, if it lies in the grid.
    fn mark(&mut self, c: i64, r: i64, st: &Settings)
        requires
            old(self).cells@.len() == st.cells_wide * st.cells_high,
        ensures
            final(self).cells@ == mark_cell(old(self).cells@, (c as int, r as int), *st),
            final(self).cells@.len() == old(self).cells@.len(),
    {
        let n = self.cells.len();
        if 0 <= c && c < st.cells_wide as i64 && 0 <= r && r < st.cells_high as i64 {
            proof {
                lemma_cell_index(c as int, r as int, st.cells_wide as int, st.cells_high as int);
            }
            let k: usize = c as usize * st.cells_high as usize + r as usize;
            self.cells.set(k, true);
        }
    }

    /// Marks the cells that a block covers.
    fn mark_block(&mut self, b: &Block, st: &Settings)
        requires
            st.wf(),
            b.in_window(*st),
            old(self).cells@.len() == st.cells_wide * st.cells_high,
        ensures
            final(self).cells@ == mark_cells(old(self).cells@, block_cells(*b, *st), *st),
            final(self).cells@.len() == old(self).cells@.len(),
    {
        proof {
            lemma_cells_positive(*st);
            vstd::arithmetic::div_mod::lemma_div_is_ordered_by_denominator(
                b.position.x as int,
                1,
                st.cell_width_sub(),
            );
            vstd::arithmetic::div_mod::lemma_div_is_ordered_by_denominator(
                b.position.y as int,
                1,
                st.cell_height_sub(),
            );
        }
        let c: i64 = (b.position.x / st.cell_width()) as i64;
        let r: i64 = (b.position.y / st.cell_height()) as i64;
        let ghost cells = block_cells(*b, *st);
        let ghost m0 = self.cells@;
        match b.offsets {
            None => {
                assert(cells.drop_last() =~= Seq::<(int, int)>::empty());
                assert(mark_cells(m0, cells.drop_last(), *st) == m0);
                self.mark(c, r, st);
            },
            Some(o) => {
                let mut j: usize = 0;
                while j < 4
                    invariant
                        j <= 4,
                        b.offsets == Some(o),
                        cells == block_cells(*b, *st),
                        c == (b.position.x as int) / st.cell_width_sub(),
                        r == (b.position.y as int) / st.cell_height_sub(),
                        0 <= c < 0x4000_0000_0000_0000,
                        0 <= r < 0x4000_0000_0000_0000,
                        self.cells@.len() == st.cells_wide * st.cells_high,
                        self.cells@ == mark_cells(m0, cells.subrange(0, j as int), *st),
                    decreases 4 - j,
                {
                    let off = o.0[j];
                    assert(cells.subrange(0, j + 1).drop_last() =~= cells.subrange(0, j as int));
                    self.mark(c + off.x as i64, r + off.y as i64, st);
                    j = j + 1;
                }
                assert(cells.subrange(0, 4) =~= cells);
            },
        }
    }
}

impl World {
    /// Runs the dropper on every block.
    pub fn dropper(&mut self, now: u64)
        requires
            old(self)@.wf(),
            old(self)@.clock.not_after(now),
        ensures
            final(self)@.wf(),
            final(self)@.clock.not_after(now),
            final(self)@ == old(self)@.after_dropper(now),
    {
        let ghost m0 = self@;
        proof {
            lemma_wf_entities(m0);
        }
        let dt = now - self.clock.last_drop;
        let n = self.entities.len();
        let mut found = false;
        let mut landed = false;
        let mut i: usize = 0;
        while i < n
            invariant
                m0.wf(),
                forall|k: int|
                    0 <= k < m0.entities.len() ==> (#[trigger] m0.entities[k]).in_window(
                        m0.settings,
                    ),
                dt == now - m0.clock.last_drop,
                n == m0.entities.len(),
                i <= n,
                self@ == (WorldModel { entities: self@.entities, ..m0 }),
                self@.entities.len() == n,
                forall|k: int|
                    0 <= k < i ==> #[trigger] self@.entities[k] == dropped(
                        m0.entities[k],
                        dt as int,
                        m0.settings,
                    ),
                forall|k: int| i <= k < n ==> #[trigger] self@.entities[k] == m0.entities[k],
                found == exists|k: int| 0 <= k < i && #[trigger] m0.entities[k].active.0,
                landed == exists|k: int|
                    0 <= k < i && #[trigger] m0.entities[k].active.0 && lands(
                        m0.entities[k],
                        dt as int,
                        m0.settings,
                    ),
            decreases n - i,
        {
            let b = self.entities[i];
            if b.active.0 {
                let nb = drop_block(&b, dt, &self.settings);
                let l = nb.position.y == self.y_limit() && !nb.active.0;
                proof {
                    lemma_dropped_in_window(b, dt as int, m0.settings);
                    assert(l == lands(b, dt as int, m0.settings));
                    assert(m0.entities[i as int].active.0);
                }
                landed = landed || l;
                self.entities.set(i, nb);
                found = true;
            }
            i = i + 1;
        }
        if found {
            self.clock.last_drop = now;
            self.actions.spawn_block = self.actions.spawn_block || landed;
        }
        proof {
            let m1 = m0.after_dropper(now);
            assert(self@.entities =~= m1.entities);
            assert forall|k: int| 0 <= k < n implies (#[trigger] self@.entities[k]).in_window(
                m0.settings,
            ) && (self@.entities[k].active.0 ==> m0.entities[k].active.0) by {
                lemma_dropped_in_window(m0.entities[k], dt as int, m0.settings);
            }
            lemma_pointwise_keeps_wf(m0, self@);
            assert(self@.clock == m1.clock);
            assert(self@.actions == m1.actions);
            assert(self@ =~= m1);
        }
    }

    /// Whether some existing block is active.
    fn has_active_entity(&self) -> (r: bool)
        ensures
            r == has_active(self@.entities),
    {
        let mut i: usize = 0;
        while i < self.entities.len()
            invariant
                i <= self.entities@.len(),
                forall|k: int| 0 <= k < i ==> !(#[trigger] self.entities@[k]).active.0,
            decreases self.entities@.len() - i,
        {
            if self.entities[i].active.0 {
                return true;
            }
            i = i + 1;
        }
        false
    }

    /// Runs the spawner.
    pub fn spawner(&mut self, now: u64)
        requires
            old(self)@.wf(),
            old(self)@.clock.not_after(now),
        ensures
            final(self)@.wf(),
            final(self)@.clock.not_after(now),
            final(self)@ == old(self)@.after_spawner(now),
    {
        let ghost m0 = self@;
        if now - self.clock.last_spawn > self.settings.spawn_debounce && self.actions.spawn_block {
            let b = Block::new_spawned(&self.settings);
            if self.create_entity_lazily(b).is_ok() {
                self.clock.last_spawn = now;
                self.actions.spawn_block = false;
                assert(self@ =~= m0.after_spawner(now));
            }
        }
    }

    /// Runs the movement system.
    pub fn movement(&mut self, now: u64)
        requires
            old(self)@.wf(),
            old(self)@.clock.not_after(now),
        ensures
            final(self)@.wf(),
            final(self)@.clock.not_after(now),
            final(self)@ == old(self)@.after_movement(now),
    {
        let ghost m0 = self@;
        proof {
            lemma_wf_entities(m0);
        }
        let ready = now - self.clock.last_player_move > self.settings.move_debounce;
        let step: Option<bool> = if ready && self.actions.move_right {
            Some(true)
        } else if ready && self.actions.move_left {
            Some(false)
        } else {
            None
        };
        self.actions.move_left = false;
        self.actions.move_right = false;
        let ghost m1 = self@;
        if let Some(right) = step {
            if self.has_active_entity() {
                let n = self.entities.len();
                let mut i: usize = 0;
                while i < n
                    invariant
                        m0.wf(),
                        forall|k: int|
                            0 <= k < m0.entities.len() ==> (#[trigger] m0.entities[k]).in_window(
                                m0.settings,
                            ),
                        n == m0.entities.len(),
                        i <= n,
                        self@ == (WorldModel { entities: self@.entities, ..m1 }),
                        m1 == (WorldModel { actions: m1.actions, ..m0 }),
                        self@.entities.len() == n,
                        forall|k: int|
                            0 <= k < i ==> #[trigger] self@.entities[k] == moved(
                                m0.entities[k],
                                right,
                                m0.settings,
                            ),
                        forall|k: int| i <= k < n ==> #[trigger] self@.entities[k] == m0.entities[k],
                    decreases n - i,
                {
                    let b = self.entities[i];
                    let nb = move_block(&b, right, &self.settings);
                    self.entities.set(i, nb);
                    i = i + 1;
                }
                self.clock.last_player_move = now;
                proof {
                    let m2 = m0.after_movement(now);
                    assert(self@.entities =~= m2.entities);
                    assert forall|k: int| 0 <= k < n implies (#[trigger] self@.entities[k]).in_window(
                        m0.settings,
                    ) && (self@.entities[k].active.0 ==> m0.entities[k].active.0) by {
                        let b = m0.entities[k];
                        assert(self@.entities[k] == moved(b, right, m0.settings));
                    }
                    lemma_pointwise_keeps_wf(m0, self@);
                    assert(self@ =~= m2);
                }
                return;
            }
        }
        assert(self@ =~= m0.after_movement(now));
        assert(self@.all_blocks() =~= m0.all_blocks());
    }

    /// Runs the ender.
    pub fn ender(&mut self)
        ensures
            final(self)@ == old(self)@.after_ender(),
            old(self)@.wf() ==> final(self)@.wf(),
    {
        self.kill_program.0 = self.kill_program.0 || self.keys.escape;
    }

    /// Runs the mapper.
    pub fn mapper(&mut self)
        requires
            old(self)@.wf(),
        ensures
            final(self)@.wf(),
            final(self)@ == old(self)@.after_mapper(),
    {
        let ghost m0 = self@;
        proof {
            lemma_wf_entities(m0);
        }
        let n = self.entities.len();
        let mut i: usize = 0;
        while i < n
            invariant
                m0.wf(),
                forall|k: int|
                    0 <= k < m0.entities.len() ==> (#[trigger] m0.entities[k]).in_window(
                        m0.settings,
                    ),
                n == m0.entities.len(),
                i <= n,
                self@ == (WorldModel { map: self@.map, ..m0 }),
                self@.map.len() == m0.map.len(),
                self@.map == mark_blocks(m0.map, m0.entities.subrange(0, i as int), m0.settings),
            decreases n - i,
        {
            let b = self.entities[i];
            assert(m0.entities.subrange(0, i + 1).drop_last() =~= m0.entities.subrange(0, i as int));
            if !b.active.0 {
                self.map.mark_block(&b, &self.settings);
            }
            i = i + 1;
        }
        assert(m0.entities.subrange(0, n as int) =~= m0.entities);
        assert(self@.all_blocks() =~= m0.all_blocks());
    }

    /// Runs one tick: the five systems in their fixed order, then the blocks
    /// created during the tick are added.
    pub fn tick(&mut self, now: u64)
        requires
            old(self)@.wf(),
            old(self)@.clock.not_after(now),
        ensures
            final(self)@.wf(),
            final(self)@.clock.not_after(now),
            final(self)@ == old(self)@.after_tick(now),
            final(self)@.pending.len() == 0,
            at_most_one_active(final(self)@.entities),
    {
        self.dropper(now);
        self.spawner(now);
        self.movement(now);
        self.ender();
        self.mapper();
        self.maintain();
        proof {
            lemma_wf_entities(self@);
        }
    }
}

} // verus!
