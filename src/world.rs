use vstd::prelude::*;

use crate::components::Block;
use crate::resources::{
    init_actions, init_clock, init_keys, init_kill_program, Actions, Clock, KeysPressed,
    KillProgram,
};
use crate::settings::Settings;

verus! {

/// Occupancy grid, one flag per cell, column by column: the cell in column
/// `c` and row `r` is at `c * cells_high + r`.
pub struct GameMap {
    pub cells: Vec<bool>,
}

/// An empty grid of `cells_wide` by `cells_high` cells.
pub fn init_game_map(st: &Settings) -> (r: GameMap)
    ensures
        r.cells@ == Seq::new((st.cells_wide * st.cells_high) as nat, |k: int| false),
{
    assert(st.cells_wide * st.cells_high <= 65535 * 65535) by (nonlinear_arith)
        requires
            st.cells_wide <= 65535,
            st.cells_high <= 65535,
    ;
    let n: usize = st.cells_wide as usize * st.cells_high as usize;
    let mut cells: Vec<bool> = Vec::new();
    let mut k: usize = 0;
    while k < n
        invariant
            k <= n,
            n == st.cells_wide * st.cells_high,
            cells@ == Seq::new(k as nat, |j: int| false),
        decreases n - k,
    {
        cells.push(false);
        k = k + 1;
        assert(cells@ =~= Seq::new(k as nat, |j: int| false));
    }
    GameMap { cells }
}

/// Handle of a block entity: its place in the world's list of entities.
#[derive(Clone, Copy, Debug, PartialEq, Eq, Structural)]
pub struct Entity(pub usize);

/// Why a block was not created.
#[derive(Clone, Copy, Debug, PartialEq, Eq, Structural)]
pub enum CreateError {
    /// The block is active and another active block exists or is pending.
    SecondActive,
    /// The block's anchor lies past the last column or below the floor.
    OutsideWindow,
}

/// What a world holds, as mathematical values.
pub struct WorldModel {
    pub settings: Settings,
    /// The blocks, in order of creation.
    pub entities: Seq<Block>,
    /// Blocks created during the current tick, added at its end.
    pub pending: Seq<Block>,
    pub clock: Clock,
    pub keys: KeysPressed,
    pub actions: Actions,
    pub kill_program: bool,
    pub map: Seq<bool>,
}

/// Whether some block of `s` is active.
pub open spec fn has_active(s: Seq<Block>) -> bool {
    exists|i: int| 0 <= i < s.len() && #[trigger] s[i].active.0
}

/// No two blocks of `s` are active.
pub open spec fn at_most_one_active(s: Seq<Block>) -> bool {
    forall|i: int, j: int|
        0 <= i < s.len() && 0 <= j < s.len() && #[trigger] s[i].active.0
            && #[trigger] s[j].active.0 ==> i == j
}

impl WorldModel {
    /// Existing and pending blocks together.
    pub open spec fn all_blocks(self) -> Seq<Block> {
        self.entities + self.pending
    }

    /// A new block may be created: it is not active, or no block is.
    pub open spec fn may_create(self, b: Block) -> bool {
        b.active.0 ==> !has_active(self.all_blocks())
    }

    /// The world's invariant: valid settings and clock, a grid of the
    /// configured size, every block inside the window, and at most one active
    /// block.
    pub open spec fn wf(self) -> bool {
        &&& self.settings.wf()
        &&& self.clock.wf()
        &&& self.map.len() == self.settings.cells_wide * self.settings.cells_high
        &&& forall|i: int|
            0 <= i < self.all_blocks().len() ==> #[trigger] self.all_blocks()[i].in_window(
                self.settings,
            )
        &&& at_most_one_active(self.all_blocks())
    }
}

/// The simulation state: settings, entities and shared resources.
pub struct World {
    pub(crate) settings: Settings,
    pub(crate) entities: Vec<Block>,
    pub(crate) pending: Vec<Block>,
    pub(crate) clock: Clock,
    pub(crate) keys: KeysPressed,
    pub(crate) actions: Actions,
    pub(crate) kill_program: KillProgram,
    pub(crate) map: GameMap,
}

impl View for World {
    type V = WorldModel;

    open(crate) spec fn view(&self) -> WorldModel {
        WorldModel {
            settings: self.settings,
            entities: self.entities@,
            pending: self.pending@,
            clock: self.clock,
            keys: self.keys,
            actions: self.actions,
            kill_program: self.kill_program.0,
            map: self.map.cells@,
        }
    }
}

impl World {
    /// A world with no blocks, its clock started at `now`, no key, no intent
    /// and an empty grid.
    pub fn new(settings: Settings, now: u64) -> (r: World)
        requires
            settings.wf(),
        ensures
            r@.wf(),
            r@.settings == settings,
            r@.entities.len() == 0,
            r@.pending.len() == 0,
            r@.clock == (Clock {
                start: now,
                last_player_move: now,
                last_drop: now,
                last_spawn: now,
            }),
            r@.keys == (KeysPressed { left: false, right: false, space: false, escape: false }),
            r@.actions == (Actions { move_left: false, move_right: false, spawn_block: false }),
            !r@.kill_program,
            r@.map == Seq::new((settings.cells_wide * settings.cells_high) as nat, |k: int| false),
    {
        let map = init_game_map(&settings);
        let w = World {
            settings,
            entities: Vec::new(),
            pending: Vec::new(),
            clock: init_clock(now),
            keys: init_keys(),
            actions: init_actions(),
            kill_program: init_kill_program(),
            map,
        };
        assert(w@.all_blocks() =~= Seq::<Block>::empty());
        w
    }

    /// Whether some existing or pending block is active.
    pub fn has_active_block(&self) -> (r: bool)
        ensures
            r == has_active(self@.all_blocks()),
    {
        let ghost all = self@.all_blocks();
        let mut i: usize = 0;
        while i < self.entities.len()
            invariant
                all == self@.all_blocks(),
                i <= self.entities@.len(),
                forall|k: int| 0 <= k < i ==> !(#[trigger] self.entities@[k]).active.0,
            decreases self.entities@.len() - i,
        {
            if self.entities[i].active.0 {
                assert(all[i as int] == self.entities@[i as int]);
                return true;
            }
            i = i + 1;
        }
        let mut j: usize = 0;
        while j < self.pending.len()
            invariant
                all == self@.all_blocks(),
                i == self.entities@.len(),
                j <= self.pending@.len(),
                forall|k: int| 0 <= k < i ==> !(#[trigger] self.entities@[k]).active.0,
                forall|k: int| 0 <= k < j ==> !(#[trigger] self.pending@[k]).active.0,
            decreases self.pending@.len() - j,
        {
            if self.pending[j].active.0 {
                assert(all[i + j] == self.pending@[j as int]);
                return true;
            }
            j = j + 1;
        }
        assert forall|k: int| 0 <= k < all.len() implies !(#[trigger] all[k]).active.0 by {
            if k < i {
                assert(all[k] == self.entities@[k]);
            } else {
                assert(all[k] == self.pending@[k - i]);
            }
        }
        false
    }

    /// The largest x a block takes, in subpixels.
    pub fn x_limit(&self) -> (r: u64)
        requires
            self@.settings.wf(),
        ensures
            r == self@.settings.x_max(),
    {
        self.settings.width_subpixels() - self.settings.cell_width()
    }

    /// The floor, in subpixels.
    pub fn y_limit(&self) -> (r: u64)
        requires
            self@.settings.wf(),
        ensures
            r == self@.settings.y_max(),
    {
        self.settings.height_subpixels() - self.settings.cell_height()
    }

    /// Checks a block before its creation: first that it lies inside the
    /// window, then that it would not be a second active block.
    fn check_new(&self, b: &Block) -> (r: Result<(), CreateError>)
        requires
            self@.wf(),
        ensures
            r == creation_check(self@, *b),
    {
        if b.position.x > self.x_limit() || b.position.y > self.y_limit() {
            Err(CreateError::OutsideWindow)
        } else if b.active.0 && self.has_active_block() {
            Err(CreateError::SecondActive)
        } else {
            Ok(())
        }
    }

    /// Creates a block at once, as at the start of a run. A block outside the
    /// window, or a second active block, is refused and nothing changes.
    pub fn create_entity(&mut self, b: Block) -> (r: Result<Entity, CreateError>)
        requires
            old(self)@.wf(),
        ensures
            final(self)@.wf(),
            r matches Ok(e) ==> creation_check(old(self)@, b) == Ok::<(), CreateError>(())
                && e == Entity(old(self)@.entities.len() as usize)
                && final(self)@ == (WorldModel {
                entities: old(self)@.entities.push(b),
                ..old(self)@
            }),
            r matches Err(err) ==> creation_check(old(self)@, b) == Err::<(), CreateError>(err)
                && final(self)@ == old(self)@,
    {
        match self.check_new(&b) {
            Err(err) => Err(err),
            Ok(()) => {
                let ghost m0 = self@;
                let e = Entity(self.entities.len());
                self.entities.push(b);
                proof {
                    lemma_insert_keeps_wf(m0, self@, b);
                }
                Ok(e)
            },
        }
    }

    /// Creates a block at the end of the current tick. A block outside the
    /// window, or a second active block, is refused and nothing changes.
    pub fn create_entity_lazily(&mut self, b: Block) -> (r: Result<(), CreateError>)
        requires
            old(self)@.wf(),
        ensures
            final(self)@.wf(),
            r == creation_check(old(self)@, b),
            r is Ok ==> final(self)@ == (WorldModel {
                pending: old(self)@.pending.push(b),
                ..old(self)@
            }),
            r is Err ==> final(self)@ == old(self)@,
    {
        let c = self.check_new(&b);
        if c.is_ok() {
            let ghost m0 = self@;
            self.pending.push(b);
            proof {
                lemma_insert_keeps_wf(m0, self@, b);
            }
        }
        c
    }

    /// Creates the first block of a run, at once.
    pub fn spawn_initial_block(&mut self) -> (r: Result<Entity, CreateError>)
        requires
            old(self)@.wf(),
        ensures
            final(self)@.wf(),
            r matches Ok(e) ==> !has_active(old(self)@.all_blocks())
                && e == Entity(old(self)@.entities.len() as usize)
                && final(self)@ == (WorldModel {
                entities: old(self)@.entities.push(Block::initial(old(self)@.settings)),
                ..old(self)@
            }),
            r matches Err(err) ==> has_active(old(self)@.all_blocks())
                && err == CreateError::SecondActive && final(self)@ == old(self)@,
    {
        let b = Block::new_initial(&self.settings);
        self.create_entity(b)
    }

    /// Adds the blocks created during the tick to the world.
    pub fn maintain(&mut self)
        requires
            old(self)@.wf(),
        ensures
            final(self)@.wf(),
            final(self)@ == old(self)@.after_maintain(),
    {
        let ghost m0 = self@;
        self.entities.append(&mut self.pending);
        assert(self@.all_blocks() =~= m0.all_blocks());
        assert(self@ =~= m0.after_maintain());
    }

    /// Stores the keys of this tick and latches the lateral intents they
    /// carry.
    pub fn set_keys(&mut self, keys: KeysPressed)
        ensures
            final(self)@ == old(self)@.after_keys(keys),
            old(self)@.wf() ==> final(self)@.wf(),
    {
        self.keys = keys;
        self.actions.move_left = self.actions.move_left || keys.left;
        self.actions.move_right = self.actions.move_right || keys.right;
    }

    pub fn settings(&self) -> (r: Settings)
        ensures
            r == self@.settings,
    {
        self.settings
    }

    pub fn clock(&self) -> (r: Clock)
        ensures
            r == self@.clock,
    {
        self.clock
    }

    pub fn keys(&self) -> (r: KeysPressed)
        ensures
            r == self@.keys,
    {
        self.keys
    }

    pub fn actions(&self) -> (r: Actions)
        ensures
            r == self@.actions,
    {
        self.actions
    }

    /// Whether the run is to end.
    pub fn kill_program(&self) -> (r: bool)
        ensures
            r == self@.kill_program,
    {
        self.kill_program.0
    }

    /// Number of blocks created and added so far.
    pub fn entity_count(&self) -> (r: usize)
        ensures
            r == self@.entities.len(),
    {
        self.entities.len()
    }

    /// Number of blocks waiting for the end of the tick.
    pub fn pending_count(&self) -> (r: usize)
        ensures
            r == self@.pending.len(),
    {
        self.pending.len()
    }

    /// The components of a block, if it exists.
    pub fn block(&self, e: Entity) -> (r: Option<Block>)
        ensures
            r == (if e.0 < self@.entities.len() {
                Some(self@.entities[e.0 as int])
            } else {
                None
            }),
    {
        if e.0 < self.entities.len() {
            Some(self.entities[e.0])
        } else {
            None
        }
    }

    /// Whether the grid cell in column `col` and row `row` is occupied; false
    /// outside the grid.
    pub fn is_occupied(&self, col: usize, row: usize) -> (r: bool)
        requires
            self@.wf(),
        ensures
            r == (col < self@.settings.cells_wide && row < self@.settings.cells_high
                && self@.map[col * self@.settings.cells_high + row]),
    {
        let wide = self.settings.cells_wide as usize;
        let high = self.settings.cells_high as usize;
        let n = self.map.cells.len();
        if col < wide && row < high {
            proof {
                lemma_cell_index(col as int, row as int, wide as int, high as int);
            }
            assert(col * high + row < n);
            self.map.cells[col * high + row]
        } else {
            false
        }
    }
}

/// The outcome of checking a block before its creation.
pub open spec fn creation_check(m: WorldModel, b: Block) -> Result<(), CreateError> {
    if !b.in_window(m.settings) {
        Err(CreateError::OutsideWindow)
    } else if !m.may_create(b) {
        Err(CreateError::SecondActive)
    } else {
        Ok(())
    }
}

impl WorldModel {
    /// Pending blocks join the existing ones.
    pub open spec fn after_maintain(self) -> WorldModel {
        WorldModel { entities: self.entities + self.pending, pending: Seq::empty(), ..self }
    }

    /// Keys stored, lateral intents latched.
    pub open spec fn after_keys(self, keys: KeysPressed) -> WorldModel {
        WorldModel {
            keys,
            actions: Actions {
                move_left: self.actions.move_left || keys.left,
                move_right: self.actions.move_right || keys.right,
                ..self.actions
            },
            ..self
        }
    }
}

/// A cell of the grid has its place in the flat list of flags.
pub proof fn lemma_cell_index(c: int, r: int, wide: int, high: int)
    requires
        0 <= c < wide,
        0 <= r < high,
    ensures
        0 <= c * high + r < wide * high,
{
    assert(c * high + r < wide * high) by (nonlinear_arith)
        requires
            0 <= c < wide,
            0 <= r < high,
    ;
    assert(0 <= c * high) by (nonlinear_arith)
        requires
            0 <= c,
            0 <= r < high,
    ;
}

/// Adding a block inside the window that may be created, among the existing
/// ones or the pending ones, keeps the invariant.
proof fn lemma_insert_keeps_wf(m0: WorldModel, m1: WorldModel, b: Block)
    requires
        m0.wf(),
        creation_check(m0, b) == Ok::<(), CreateError>(()),
        m1 == (WorldModel { entities: m0.entities.push(b), ..m0 }) || m1 == (WorldModel {
            pending: m0.pending.push(b),
            ..m0
        }),
    ensures
        m1.wf(),
{
    let a0 = m0.all_blocks();
    let a1 = m1.all_blocks();
    let p: int = if m1.entities.len() > m0.entities.len() {
        m0.entities.len() as int
    } else {
        a0.len() as int
    };
    assert(a1 =~= a0.insert(p, b));
    a0.insert_ensures(p, b);
    assert forall|k: int| 0 <= k < a1.len() implies #[trigger] a1[k].in_window(m1.settings) by {
        if k < p {
            assert(a1[k] == a0[k]);
        } else if k > p {
            assert(a1[(k - 1) + 1] == a0[k - 1]);
        }
    }
    assert forall|i: int, j: int|
        0 <= i < a1.len() && 0 <= j < a1.len() && #[trigger] a1[i].active.0
            && #[trigger] a1[j].active.0 implies i == j by {
        let oi = if i < p { i } else { i - 1 };
        let oj = if j < p { j } else { j - 1 };
        if i != p {
            assert(a1[i] == a0[oi]) by {
                if i > p {
                    assert(a1[(i - 1) + 1] == a0[i - 1]);
                }
            }
        }
        if j != p {
            assert(a1[j] == a0[oj]) by {
                if j > p {
                    assert(a1[(j - 1) + 1] == a0[j - 1]);
                }
            }
        }
        if i == p && j != p {
            assert(a0[oj].active.0);
        }
        if j == p && i != p {
            assert(a0[oi].active.0);
        }
    }
}

/// Under the invariant, each existing and each pending block lies inside the
/// window, and no two existing blocks are active.
pub proof fn lemma_wf_entities(m: WorldModel)
    requires
        m.wf(),
    ensures
        forall|k: int|
            0 <= k < m.entities.len() ==> (#[trigger] m.entities[k]).in_window(m.settings),
        forall|k: int| 0 <= k < m.pending.len() ==> (#[trigger] m.pending[k]).in_window(m.settings),
        at_most_one_active(m.entities),
{
    let a = m.all_blocks();
    let n = m.entities.len() as int;
    assert forall|k: int| 0 <= k < m.entities.len() implies (#[trigger] m.entities[k]).in_window(
        m.settings,
    ) by {
        assert(a[k] == m.entities[k]);
    }
    assert forall|k: int| 0 <= k < m.pending.len() implies (#[trigger] m.pending[k]).in_window(
        m.settings,
    ) by {
        assert(a[n + k] == m.pending[k]);
    }
    assert forall|i: int, j: int|
        0 <= i < m.entities.len() && 0 <= j < m.entities.len() && #[trigger] m.entities[i].active.0
            && #[trigger] m.entities[j].active.0 implies i == j by {
        assert(a[i] == m.entities[i]);
        assert(a[j] == m.entities[j]);
    }
}

} // verus!
