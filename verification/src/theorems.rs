//! What holds of a camera over more than one operation.

use vstd::prelude::*;
use crate::camera::{
    heading, lemma_heading, lemma_pointing, level, pointing, sideways, Camera, CameraMovement,
    GRAVITY, PITCH_LIMIT,
};
use crate::fixed::{fits, lemma_product_error, lemma_product_one, product, SCALE};
use crate::trig::{cosine, lemma_cardinal_angles, lemma_periodic, sine, FULL_TURN};
use crate::vector::lemma_unit_length;

verus! {

/// Whatever the yaw and the pitch, in range or not, the camera looks along
/// a vector whose length is one to within four millionths.
pub proof fn lemma_front_has_unit_length(c: Camera)
    ensures
        (SCALE - 4) * (SCALE - 4) <= c.direction().norm_squared() <= (SCALE + 1) * (SCALE + 1),
{
    lemma_pointing(c.yaw, c.pitch);
    lemma_unit_length(pointing(c.yaw, c.pitch));
}

/// A camera that looks level looks along its heading: the direction in
/// which it looks and the direction in which it walks then agree.
pub proof fn lemma_level_front(c: Camera)
    requires
        c.pitch == 0,
    ensures
        c.direction() == heading(c.yaw),
{
    lemma_cardinal_angles();
    lemma_product_one(cosine(c.yaw as int));
    lemma_product_one(sine(c.yaw as int));
    lemma_pointing(c.yaw, 0);
    assert(pointing(c.yaw, 0) == level(c.yaw));
}

/// The yaw wraps by itself: a full turn more of it changes neither where the
/// camera looks nor where it walks.
pub proof fn lemma_yaw_wraps(yaw: i64, pitch: i64)
    requires
        yaw + FULL_TURN <= i64::MAX,
    ensures
        pointing((yaw + FULL_TURN) as i64, pitch) == pointing(yaw, pitch),
        heading((yaw + FULL_TURN) as i64) == heading(yaw),
        sideways((yaw + FULL_TURN) as i64) == sideways(yaw),
{
    lemma_periodic(yaw as int);
}

/// The camera after each mouse travel of `moves` in turn.
pub open spec fn after_mouse_moves(c: Camera, moves: Seq<(i64, i64)>) -> Camera
    decreases moves.len(),
{
    if moves.len() == 0 {
        c
    } else {
        after_mouse_moves(c, moves.drop_last()).after_mouse(moves.last().0, moves.last().1)
    }
}

/// The sum of `dx · sensitivity` over `moves`.
pub open spec fn yaw_travel(moves: Seq<(i64, i64)>, sensitivity: i64) -> int
    decreases moves.len(),
{
    if moves.len() == 0 {
        0
    } else {
        yaw_travel(moves.drop_last(), sensitivity) + product(
            moves.last().0 as int,
            sensitivity as int,
        )
    }
}

/// Once the mouse has moved, however often and however far, the pitch lies
/// within the limit, and the mouse touches nothing but the two angles.
pub proof fn lemma_pitch_stays_clamped(c: Camera, moves: Seq<(i64, i64)>)
    ensures
        moves.len() > 0 ==> -PITCH_LIMIT <= after_mouse_moves(c, moves).pitch <= PITCH_LIMIT,
        after_mouse_moves(c, moves).position == c.position,
        after_mouse_moves(c, moves).speed == c.speed,
        after_mouse_moves(c, moves).sensitivity == c.sensitivity,
        after_mouse_moves(c, moves).vertical_velocity == c.vertical_velocity,
    decreases moves.len(),
{
    if moves.len() > 0 {
        lemma_pitch_stays_clamped(c, moves.drop_last());
    }
}

/// The yaw is never wrapped or clamped: as long as it stays in the range of
/// `i64`, it is the yaw at the start plus the sum of `dx · sensitivity` over
/// all the mouse travels since.
pub proof fn lemma_yaw_accumulates(c: Camera, moves: Seq<(i64, i64)>)
    requires
        forall|k: int|
            0 <= k <= moves.len() ==> fits(
                c.yaw + #[trigger] yaw_travel(moves.take(k), c.sensitivity),
            ),
    ensures
        after_mouse_moves(c, moves).yaw == c.yaw + yaw_travel(moves, c.sensitivity),
    decreases moves.len(),
{
    if moves.len() > 0 {
        let init = moves.drop_last();
        assert forall|k: int| 0 <= k <= init.len() implies fits(
            c.yaw + #[trigger] yaw_travel(init.take(k), c.sensitivity),
        ) by {
            assert(init.take(k) =~= moves.take(k));
        }
        lemma_yaw_accumulates(c, init);
        lemma_pitch_stays_clamped(c, init);
        assert(moves.take(moves.len() as int) =~= moves);
    }
}

/// The direction that undoes `direction`.
pub open spec fn opposite(direction: CameraMovement) -> CameraMovement {
    match direction {
        CameraMovement::Forward => CameraMovement::Backward,
        CameraMovement::Backward => CameraMovement::Forward,
        CameraMovement::Left => CameraMovement::Right,
        CameraMovement::Right => CameraMovement::Left,
    }
}

/// Whether `dt` seconds of travel in `direction` keep every coordinate in
/// the range of `i64`.
pub open spec fn moves_freely(c: Camera, direction: CameraMovement, dt: i64) -> bool {
    let step = c.displacement(direction, dt);
    match direction {
        CameraMovement::Forward | CameraMovement::Right => fits(c.position.x + step.x) && fits(
            c.position.y + step.y,
        ),
        CameraMovement::Backward | CameraMovement::Left => fits(c.position.x - step.x) && fits(
            c.position.y - step.y,
        ),
    }
}

/// A step and the same step in the opposite direction bring the camera back
/// to where it was, exactly, unless the first step ran into the end of the
/// coordinate range.
pub proof fn lemma_keyboard_round_trip(c: Camera, direction: CameraMovement, dt: i64)
    requires
        moves_freely(c, direction, dt),
    ensures
        c.after_keyboard(direction, dt).after_keyboard(opposite(direction), dt) == c,
{
    lemma_heading(c.yaw);
    let there = c.after_keyboard(direction, dt);
    assert(there.displacement(opposite(direction), dt) == c.displacement(direction, dt));
}

/// The pitch has no part in a step: two cameras that agree on position, yaw
/// and speed move by the same displacement to the same place, whatever
/// their pitch, and a step leaves the pitch as it was.
pub proof fn lemma_movement_ignores_pitch(
    a: Camera,
    b: Camera,
    direction: CameraMovement,
    dt: i64,
)
    requires
        a.position == b.position,
        a.yaw == b.yaw,
        a.speed == b.speed,
    ensures
        a.displacement(direction, dt) == b.displacement(direction, dt),
        a.after_keyboard(direction, dt).position == b.after_keyboard(direction, dt).position,
        a.after_keyboard(direction, dt).pitch == a.pitch,
        b.after_keyboard(direction, dt).pitch == b.pitch,
{
}

/// The camera after `n` updates of `dt` seconds each.
pub open spec fn after_updates(c: Camera, dt: i64, n: nat) -> Camera
    decreases n,
{
    if n == 0 {
        c
    } else {
        after_updates(c, dt, (n - 1) as nat).after_update(dt)
    }
}

/// The height gained in `n` steps of `h` seconds by a body whose velocity
/// is `v0` at the start and grows by `g` before each step: the sum of
/// `(v0 + k·g) · h` for `k` from 1 to `n`, each term rounded as `product`
/// rounds.
pub open spec fn fall(v0: int, g: int, h: int, n: nat) -> int
    decreases n,
{
    if n == 0 {
        0
    } else {
        fall(v0, g, h, (n - 1) as nat) + product(v0 + n * g, h)
    }
}

/// Whether the velocity and the height that `k` updates of `h` seconds lead
/// to are in the range of `i64`.
pub open spec fn falls_freely(c: Camera, h: i64, k: nat) -> bool {
    let g = product(GRAVITY as int, h as int);
    fits(c.vertical_velocity + k * g) && fits(
        c.position.z + fall(c.vertical_velocity as int, g, h as int, k),
    )
}

/// After `n` updates of `h` seconds the velocity has grown by `n` times
/// `GRAVITY · h` and the height by `fall`, as long as neither ran into the
/// end of the range of `i64` on the way; nothing else has changed.
pub proof fn lemma_free_fall(c: Camera, h: i64, n: nat)
    requires
        forall|k: nat| k <= n ==> #[trigger] falls_freely(c, h, k),
    ensures
        after_updates(c, h, n).vertical_velocity == c.vertical_velocity + n * product(
            GRAVITY as int,
            h as int,
        ),
        after_updates(c, h, n).position.z == c.position.z + fall(
            c.vertical_velocity as int,
            product(GRAVITY as int, h as int),
            h as int,
            n,
        ),
        after_updates(c, h, n).position.x == c.position.x,
        after_updates(c, h, n).position.y == c.position.y,
        after_updates(c, h, n).yaw == c.yaw,
        after_updates(c, h, n).pitch == c.pitch,
        after_updates(c, h, n).speed == c.speed,
        after_updates(c, h, n).sensitivity == c.sensitivity,
    decreases n,
{
    let g = product(GRAVITY as int, h as int);
    if n > 0 {
        let m = (n - 1) as nat;
        assert forall|k: nat| k <= m implies #[trigger] falls_freely(c, h, k) by {
            assert(k <= n);
        }
        lemma_free_fall(c, h, m);
        assert(falls_freely(c, h, n));
        assert(c.vertical_velocity + m * g + g == c.vertical_velocity + n * g) by (nonlinear_arith)
            requires
                m == n - 1,
        ;
    } else {
        assert(0 * g == 0);
    }
}

/// The velocity gained in `n` updates of `h` seconds against its closed
/// form `n · GRAVITY · h`: in millionths of a millionth the two differ by
/// less than `n` millionths, one rounding of `GRAVITY · h` counted `n` times.
pub proof fn lemma_velocity_closed_form(h: int, n: nat)
    ensures
        -n * (SCALE - 1) <= SCALE * (n * product(GRAVITY as int, h)) - n * (GRAVITY * h),
        SCALE * (n * product(GRAVITY as int, h)) - n * (GRAVITY * h) <= n * (SCALE - 1),
{
    let g = product(GRAVITY as int, h);
    lemma_product_error(GRAVITY as int, h);
    let e = SCALE * g - GRAVITY * h;
    assert(SCALE * (n * g) - n * (GRAVITY * h) == n * e) by (nonlinear_arith)
        requires
            e == SCALE * g - GRAVITY * h,
    ;
    assert(-n * (SCALE - 1) <= n * e <= n * (SCALE - 1)) by (nonlinear_arith)
        requires
            -(SCALE - 1) <= e <= SCALE - 1,
            n >= 0,
    ;
}

/// The sum `fall` against its closed form `h · (n·v0 + g · n(n + 1)/2)`:
/// in millionths of a millionth the two differ by less than `n` millionths,
/// one rounding for each step. Both sides are doubled to stay in integers.
pub proof fn lemma_fall_closed_form(v0: int, g: int, h: int, n: nat)
    ensures
        -2 * n * (SCALE - 1) <= 2 * SCALE * fall(v0, g, h, n) - h * (2 * n * v0 + g * n * (n + 1))
            <= 2 * n * (SCALE - 1),
    decreases n,
{
    if n > 0 {
        let m = (n - 1) as nat;
        lemma_fall_closed_form(v0, g, h, m);
        let v = v0 + n * g;
        lemma_product_error(v, h);
        let e = SCALE * product(v, h) - v * h;
        let before = 2 * SCALE * fall(v0, g, h, m) - h * (2 * m * v0 + g * m * (m + 1));
        let now = 2 * SCALE * fall(v0, g, h, n) - h * (2 * n * v0 + g * n * (n + 1));
        assert(now == before + 2 * e) by (nonlinear_arith)
            requires
                m == n - 1,
                v == v0 + n * g,
                e == SCALE * product(v, h) - v * h,
                fall(v0, g, h, n) == fall(v0, g, h, m) + product(v, h),
                before == 2 * SCALE * fall(v0, g, h, m) - h * (2 * m * v0 + g * m * (m + 1)),
                now == 2 * SCALE * fall(v0, g, h, n) - h * (2 * n * v0 + g * n * (n + 1)),
        ;
        assert(2 * n * (SCALE - 1) == 2 * m * (SCALE - 1) + 2 * (SCALE - 1)) by (nonlinear_arith)
            requires
                m == n - 1,
        ;
    } else {
        assert(h * (2 * n * v0 + g * n * (n + 1)) == 0) by (nonlinear_arith)
            requires
                n == 0,
        ;
    }
}

} // verus!
