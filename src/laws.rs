use vstd::prelude::*;

use crate::components::Block;
use crate::resources::KeysPressed;
use crate::settings::{Settings, SUBPIXELS_PER_PIXEL};
use crate::systems::{dropped, lands, lemma_cells_positive, shifted_right};
use crate::world::WorldModel;

verus! {

/// Running the ender twice does what running it once does, and once the run
/// is to end, escape or not, it stays so.
pub proof fn lemma_ender_idempotent(m: WorldModel)
    ensures
        m.after_ender().after_ender() == m.after_ender(),
        m.keys.escape ==> m.after_ender().kill_program,
        m.kill_program ==> m.after_ender().kill_program,
{
}

/// No tick clears the request to end the run.
pub proof fn lemma_tick_keeps_kill(m: WorldModel, now: u64)
    requires
        m.kill_program,
    ensures
        m.after_tick(now).kill_program,
{
}

/// A block one pixel above the floor whose fall in one tick exceeds one
/// pixel, without passing the window's bottom edge, stops exactly on the
/// floor and turns inactive.
pub proof fn lemma_drop_clamps_to_floor(b: Block, dt: int, st: Settings)
    requires
        st.wf(),
        b.active.0,
        b.position.y == st.y_max() - SUBPIXELS_PER_PIXEL,
        dt * b.drop_speed.0 > SUBPIXELS_PER_PIXEL,
        b.position.y + dt * b.drop_speed.0 < st.height_sub(),
    ensures
        lands(b, dt, st),
        dropped(b, dt, st).position.y == st.y_max(),
        !dropped(b, dt, st).active.0,
{
    vstd::arithmetic::div_mod::lemma_small_mod(
        (b.position.y + dt * b.drop_speed.0) as nat,
        st.height_sub() as nat,
    );
}

/// In a world, the dropper puts such a block on the floor, makes it inactive
/// and requests a spawn.
pub proof fn lemma_dropper_lands_on_floor(m: WorldModel, i: int, now: u64)
    requires
        m.wf(),
        0 <= i < m.entities.len(),
        m.entities[i].active.0,
        m.entities[i].position.y == m.settings.y_max() - SUBPIXELS_PER_PIXEL,
        (now - m.clock.last_drop) * m.entities[i].drop_speed.0 > SUBPIXELS_PER_PIXEL,
        m.entities[i].position.y + (now - m.clock.last_drop) * m.entities[i].drop_speed.0
            < m.settings.height_sub(),
    ensures
        m.after_dropper(now).entities[i].position.y == m.settings.y_max(),
        !m.after_dropper(now).entities[i].active.0,
        m.after_dropper(now).actions.spawn_block,
{
    let dt = now - m.clock.last_drop;
    lemma_drop_clamps_to_floor(m.entities[i], dt, m.settings);
    assert(m.entities[i].active.0);
}

/// A step right from the last column wraps to the first column.
pub proof fn lemma_right_wraps(st: Settings)
    requires
        st.wf(),
    ensures
        shifted_right(st.x_max(), st) == 0,
{
    lemma_cells_positive(st);
}

/// In a world, the active block in the last column moves to x = 0 on a step
/// to the right.
pub proof fn lemma_movement_wraps_right(m: WorldModel, i: int, now: u64)
    requires
        m.wf(),
        0 <= i < m.entities.len(),
        m.entities[i].active.0,
        m.entities[i].position.x == m.settings.x_max(),
        m.actions.move_right,
        now - m.clock.last_player_move > m.settings.move_debounce,
    ensures
        m.after_movement(now).entities[i].position.x == 0,
{
    lemma_right_wraps(m.settings);
    assert(m.entities[i].active.0);
}

/// Two requests to move right, the second less than the move interval after
/// the first was acted on, change the active block's position once: the
/// second leaves every block where the first put it. With two columns or
/// more, the first does move the block.
pub proof fn lemma_move_debounce(m: WorldModel, i: int, t1: u64, t2: u64, keys: KeysPressed)
    requires
        m.wf(),
        0 <= i < m.entities.len(),
        m.entities[i].active.0,
        m.actions.move_right,
        t1 - m.clock.last_player_move > m.settings.move_debounce,
        keys.right,
        t1 <= t2,
        t2 - t1 < m.settings.move_debounce,
    ensures
        m.after_movement(t1).entities[i].position.x == shifted_right(
            m.entities[i].position.x as int,
            m.settings,
        ),
        m.after_movement(t1).after_keys(keys).after_movement(t2).entities == m.after_movement(
            t1,
        ).entities,
        m.settings.cells_wide >= 2 ==> m.after_movement(t1).entities[i].position.x
            != m.entities[i].position.x,
{
    let st = m.settings;
    lemma_cells_positive(st);
    assert(m.entities[i].active.0);
    let m1 = m.after_movement(t1);
    assert(m1.clock.last_player_move == t1);
    if st.cells_wide >= 2 {
        assert(st.cell_width_sub() <= st.x_max()) by {
            vstd::arithmetic::div_mod::lemma_div_is_ordered_by_denominator(
                st.width_sub(),
                2,
                st.cells_wide as int,
            );
            vstd::arithmetic::div_mod::lemma_fundamental_div_mod(st.width_sub(), 2);
        }
    }
}

} // verus!
