//! The simulation: one hoop that slides between two walls, and balls that
//! fly under gravity once they have been shot.

use crate::fixed::{div_toward_zero, Angle, Fixed, SCALE};
use crate::message::{HorizontalDirection, ToClientMessage};
use crate::state::{applied_all, GameState, GameStateView, Point, UpdateState};
use std::collections::HashMap;
use vstd::prelude::*;

verus! {

broadcast use vstd::std_specs::hash::group_hash_axioms;

/// Where the hoop starts, in raw units.
pub const INITIAL_HOOP_X: i64 = 100_000_000;

/// The leftmost place of the hoop, in raw units.
pub const HOOP_MIN_X: i64 = 0;

/// The rightmost place of the hoop, in raw units.
pub const HOOP_MAX_X: i64 = 200_000_000;

/// Distance the hoop covers per second of key press, in raw units.
pub const HOOP_SPEED: i64 = 100_000_000;

/// The factor of a move to the right, in raw units.
pub const TO_THE_RIGHT: i64 = 1_000_000;

/// The factor of a move to the left, in raw units.
pub const TO_THE_LEFT: i64 = -1_000_000;

/// The ball that every game starts with.
pub const SINGLE_BALL_ID: u32 = 0;

/// Where that ball starts, in raw units.
pub const SINGLE_BALL_X: i64 = -100_000_000;

pub const SINGLE_BALL_Y: i64 = 10_000_000;

/// Speed a ball gains per second of key press, in raw units.
pub const BALL_SPEED_PER_SECOND_PRESSED: i64 = 100_000_000;

/// The greatest speed of a shot, in raw units.
pub const BALL_MAX_SPEED: i64 = 100_000_000;

/// Downward acceleration, in raw units.
pub const GRAVITY: i64 = 9_810_000;

/// The authoritative state of one game.
///
/// Beside what the clients see it holds the velocity of every ball (`None`
/// while the ball has not been shot) and the order in which balls are
/// advanced and reported.
pub struct Game {
    state: GameState,
    ball_velocities: HashMap<u32, Option<Point>>,
    ball_order: Vec<u32>,
}

/// The mathematical content of a [`Game`].
pub struct GameView {
    pub state: GameStateView,
    pub ball_velocities: Map<u32, Option<Point>>,
    pub ball_order: Seq<u32>,
}

/// The factor `+1` or `-1` of a direction.
pub open spec fn direction_sign(direction: HorizontalDirection) -> Fixed {
    match direction {
        HorizontalDirection::Left => Fixed { raw: TO_THE_LEFT },
        HorizontalDirection::Right => Fixed { raw: TO_THE_RIGHT },
    }
}

/// Where a hoop at `hoop_x` stands after a key press: moved by the hoop's
/// speed times the duration, and held between the walls.
pub open spec fn hoop_after_move(
    hoop_x: Fixed,
    direction: HorizontalDirection,
    seconds_pressed: Fixed,
) -> Fixed {
    let delta_x = direction_sign(direction).product(Fixed { raw: HOOP_SPEED }).product(
        seconds_pressed,
    );
    hoop_x.sum(delta_x).clamped(Fixed { raw: HOOP_MIN_X }, Fixed { raw: HOOP_MAX_X })
}

/// The velocity of a shot: the speed grows with the duration of the press up
/// to the greatest speed, and points along `angle`.
pub open spec fn ball_velocity(angle: Angle, seconds_pressed: Fixed) -> Point {
    let speed = seconds_pressed.product(Fixed { raw: BALL_SPEED_PER_SECOND_PRESSED }).clamped(
        Fixed { raw: 0 },
        Fixed { raw: BALL_MAX_SPEED },
    );
    Point { x: angle.cos.product(speed), y: angle.sin.product(speed) }
}

/// Where something at `position` is after moving with `velocity` for
/// `elapsed` seconds.
pub open spec fn moved_point(position: Point, velocity: Point, elapsed: Fixed) -> Point {
    Point {
        x: position.x.sum(velocity.x.product(elapsed)),
        y: position.y.sum(velocity.y.product(elapsed)),
    }
}

/// A velocity after gravity has acted on it for `elapsed` seconds.
pub open spec fn fallen_velocity(velocity: Point, elapsed: Fixed) -> Point {
    Point { x: velocity.x, y: velocity.y.difference(Fixed { raw: GRAVITY }.product(elapsed)) }
}

/// Wraps each update into the message that carries it.
pub open spec fn as_messages(updates: Seq<UpdateState>) -> Seq<ToClientMessage> {
    updates.map_values(|update: UpdateState| ToClientMessage::UpdateState(update))
}

impl GameView {
    /// The hoop is between the walls, every ball has a place in the order of
    /// balls exactly once, and a velocity entry.
    pub open spec fn wf(self) -> bool {
        &&& HOOP_MIN_X <= self.state.hoop_x.raw <= HOOP_MAX_X
        &&& self.ball_order.no_duplicates()
        &&& forall|id: u32|
            self.ball_order.contains(id) <==> #[trigger] self.state.ball_positions.contains_key(id)
        &&& forall|id: u32|
            self.ball_velocities.contains_key(id) <==> #[trigger] self.state.ball_positions.contains_key(
                id,
            )
    }

    /// The game as it starts: the hoop in the middle, one ball at rest.
    pub open spec fn initial() -> GameView {
        GameView {
            state: GameStateView {
                hoop_x: Fixed { raw: INITIAL_HOOP_X },
                ball_positions: Map::<u32, Point>::empty().insert(
                    SINGLE_BALL_ID,
                    Point { x: Fixed { raw: SINGLE_BALL_X }, y: Fixed { raw: SINGLE_BALL_Y } },
                ),
            },
            ball_velocities: Map::<u32, Option<Point>>::empty().insert(SINGLE_BALL_ID, None),
            ball_order: seq![SINGLE_BALL_ID],
        }
    }

    /// The game after the hoop's controller pressed a key.
    pub open spec fn hoop_moved(
        self,
        direction: HorizontalDirection,
        seconds_pressed: Fixed,
    ) -> GameView {
        GameView {
            state: GameStateView {
                hoop_x: hoop_after_move(self.state.hoop_x, direction, seconds_pressed),
                ..self.state
            },
            ..self
        }
    }

    /// The game after ball `id` was shot. Nothing changes if there is no such
    /// ball.
    pub open spec fn ball_shot(self, id: u32, angle: Angle, seconds_pressed: Fixed) -> GameView {
        if self.state.ball_positions.contains_key(id) {
            GameView {
                ball_velocities: self.ball_velocities.insert(
                    id,
                    Some(ball_velocity(angle, seconds_pressed)),
                ),
                ..self
            }
        } else {
            self
        }
    }

    /// Ball `id` exists and has been shot.
    pub open spec fn is_moving(self, id: u32) -> bool {
        &&& self.state.ball_positions.contains_key(id)
        &&& self.ball_velocities.contains_key(id)
        &&& self.ball_velocities[id] is Some
    }

    /// Where the moving ball `id` is after `elapsed` seconds.
    pub open spec fn position_after(self, id: u32, elapsed: Fixed) -> Point {
        moved_point(self.state.ball_positions[id], self.ball_velocities[id]->0, elapsed)
    }

    /// The game after `elapsed` seconds: every moving ball has moved with the
    /// velocity it had, and then lost upward speed to gravity. The balls at
    /// rest and the hoop stay.
    pub open spec fn ticked(self, elapsed: Fixed) -> GameView {
        GameView {
            state: GameStateView {
                hoop_x: self.state.hoop_x,
                ball_positions: Map::new(
                    |id: u32| self.state.ball_positions.contains_key(id),
                    |id: u32|
                        if self.is_moving(id) {
                            self.position_after(id, elapsed)
                        } else {
                            self.state.ball_positions[id]
                        },
                ),
            },
            ball_velocities: Map::new(
                |id: u32| self.ball_velocities.contains_key(id),
                |id: u32|
                    if self.is_moving(id) {
                        Some(fallen_velocity(self.ball_velocities[id]->0, elapsed))
                    } else {
                        self.ball_velocities[id]
                    },
            ),
            ball_order: self.ball_order,
        }
    }

    /// The updates that report a tick of `elapsed` seconds for the balls
    /// `ids`: the new position of each moving one, in the order of `ids`.
    pub open spec fn updates_for(self, ids: Seq<u32>, elapsed: Fixed) -> Seq<UpdateState>
        decreases ids.len(),
    {
        if ids.len() == 0 {
            Seq::empty()
        } else {
            let earlier = self.updates_for(ids.drop_last(), elapsed);
            if self.is_moving(ids.last()) {
                earlier.push(
                    UpdateState::MoveBall {
                        id: ids.last(),
                        position: self.position_after(ids.last(), elapsed),
                    },
                )
            } else {
                earlier
            }
        }
    }

    /// The updates that report a tick of `elapsed` seconds.
    pub open spec fn tick_updates(self, elapsed: Fixed) -> Seq<UpdateState> {
        self.updates_for(self.ball_order, elapsed)
    }
}

impl View for Game {
    type V = GameView;

    closed spec fn view(&self) -> GameView {
        GameView {
            state: self.state@,
            ball_velocities: self.ball_velocities@,
            ball_order: self.ball_order@,
        }
    }
}

impl Default for Game {
    fn default() -> (game: Game)
        ensures
            game@ == GameView::initial(),
            game@.wf(),
    {
        let mut ball_positions: HashMap<u32, Point> = HashMap::new();
        let mut ball_velocities: HashMap<u32, Option<Point>> = HashMap::new();
        let mut ball_order: Vec<u32> = Vec::new();
        ball_positions.insert(
            SINGLE_BALL_ID,
            Point { x: Fixed { raw: SINGLE_BALL_X }, y: Fixed { raw: SINGLE_BALL_Y } },
        );
        ball_velocities.insert(SINGLE_BALL_ID, None);
        ball_order.push(SINGLE_BALL_ID);
        let game = Game {
            state: GameState { hoop_x: Fixed { raw: INITIAL_HOOP_X }, ball_positions },
            ball_velocities,
            ball_order,
        };
        proof {
            assert(game.ball_order@ =~= seq![SINGLE_BALL_ID]);
            assert(seq![SINGLE_BALL_ID][0] == SINGLE_BALL_ID);
        }
        game
    }
}

/// The velocity of a shot along `angle` after a press of `seconds_pressed`.
pub fn calculate_ball_velocity(angle: Angle, seconds_pressed: Fixed) -> (velocity: Point)
    ensures
        velocity == ball_velocity(angle, seconds_pressed),
{
    let speed = seconds_pressed.times(Fixed { raw: BALL_SPEED_PER_SECOND_PRESSED }).clamp(
        Fixed { raw: 0 },
        Fixed { raw: BALL_MAX_SPEED },
    );
    let x = angle.cos.times(speed);
    let y = angle.sin.times(speed);
    Point { x, y }
}

impl Game {
    /// What the clients see of the game.
    pub fn state(&self) -> (state: &GameState)
        ensures
            state@ == self@.state,
    {
        &self.state
    }

    /// Moves the hoop for a key press of `seconds_pressed`.
    pub fn move_hoop(&mut self, direction: HorizontalDirection, seconds_pressed: Fixed)
        requires
            old(self)@.wf(),
        ensures
            final(self)@ == old(self)@.hoop_moved(direction, seconds_pressed),
            final(self)@.wf(),
    {
        let sign = match direction {
            HorizontalDirection::Left => Fixed { raw: TO_THE_LEFT },
            HorizontalDirection::Right => Fixed { raw: TO_THE_RIGHT },
        };
        let delta_x = sign.times(Fixed { raw: HOOP_SPEED }).times(seconds_pressed);
        self.state.hoop_x = self.state.hoop_x.plus(delta_x).clamp(
            Fixed { raw: HOOP_MIN_X },
            Fixed { raw: HOOP_MAX_X },
        );
        proof {
            assert(self@.ball_order == old(self)@.ball_order);
            assert(self@.state.ball_positions == old(self)@.state.ball_positions);
            assert(self@.ball_velocities == old(self)@.ball_velocities);
        }
    }

    /// Shoots ball `id` along `angle`.
    pub fn shoot_ball(&mut self, id: u32, angle: Angle, seconds_pressed: Fixed)
        requires
            old(self)@.wf(),
        ensures
            final(self)@ == old(self)@.ball_shot(id, angle, seconds_pressed),
            final(self)@.wf(),
    {
        if self.state.ball_positions.contains_key(&id) {
            let ball_velocity = calculate_ball_velocity(angle, seconds_pressed);
            self.ball_velocities.insert(id, Some(ball_velocity));
            proof {
                assert(final(self)@.ball_velocities =~= old(self)@.ball_velocities.insert(
                    id,
                    Some(ball_velocity),
                ));
            }
        }
    }

    /// Advances every moving ball by `elapsed` seconds and appends the
    /// message that reports each new position to `updates`.
    pub fn update(&mut self, elapsed: Fixed, updates: &mut Vec<ToClientMessage>)
        requires
            old(self)@.wf(),
        ensures
            final(self)@ == old(self)@.ticked(elapsed),
            final(self)@.wf(),
            final(updates)@ == old(updates)@ + as_messages(old(self)@.tick_updates(elapsed)),
    {
        let ghost before = self@;
        let ghost earlier = updates@;
        let count: usize = self.ball_order.len();
        let mut index: usize = 0;
        while index < count
            invariant
                before.wf(),
                index <= count == before.ball_order.len(),
                self@.ball_order == before.ball_order,
                self@.state.hoop_x == before.state.hoop_x,
                self@.state.ball_positions =~= Map::new(
                    |id: u32| before.state.ball_positions.contains_key(id),
                    |id: u32|
                        if before.ball_order.take(index as int).contains(id) && before.is_moving(
                            id,
                        ) {
                            before.position_after(id, elapsed)
                        } else {
                            before.state.ball_positions[id]
                        },
                ),
                self@.ball_velocities =~= Map::new(
                    |id: u32| before.ball_velocities.contains_key(id),
                    |id: u32|
                        if before.ball_order.take(index as int).contains(id) && before.is_moving(
                            id,
                        ) {
                            Some(fallen_velocity(before.ball_velocities[id]->0, elapsed))
                        } else {
                            before.ball_velocities[id]
                        },
                ),
                updates@ == earlier + as_messages(
                    before.updates_for(before.ball_order.take(index as int), elapsed),
                ),
            decreases count - index,
        {
            let id: u32 = self.ball_order[index];
            let ghost done = before.ball_order.take(index as int);
            let ghost next = before.ball_order.take(index + 1);
            proof {
                assert(next.drop_last() =~= done);
                assert(next.last() == id);
                assert(!done.contains(id));
                assert forall|other: u32| next.contains(other) <==> (done.contains(other) || other
                    == id) by {
                    if done.contains(other) {
                        let k = choose|k: int| 0 <= k < done.len() && done[k] == other;
                        assert(next[k] == other);
                    }
                    if other == id {
                        assert(next[index as int] == id);
                    }
                }
                assert(before.ball_order.contains(id));
            }
            let velocity: Option<Point> = match self.ball_velocities.get(&id) {
                Some(entry) => *entry,
                None => None,
            };
            let position: Option<Point> = match self.state.ball_positions.get(&id) {
                Some(entry) => Some(*entry),
                None => None,
            };
            match (velocity, position) {
                (Some(velocity), Some(ball)) => {
                    let moved = Point {
                        x: ball.x.plus(velocity.x.times(elapsed)),
                        y: ball.y.plus(velocity.y.times(elapsed)),
                    };
                    self.state.ball_positions.insert(id, moved);
                    updates.push(
                        ToClientMessage::UpdateState(UpdateState::MoveBall { id, position: moved }),
                    );
                    let fallen = Point {
                        x: velocity.x,
                        y: velocity.y.minus(Fixed { raw: GRAVITY }.times(elapsed)),
                    };
                    self.ball_velocities.insert(id, Some(fallen));
                    proof {
                        assert(before.is_moving(id));
                        assert(as_messages(before.updates_for(next, elapsed)) =~= as_messages(
                            before.updates_for(done, elapsed),
                        ).push(
                            ToClientMessage::UpdateState(
                                UpdateState::MoveBall { id, position: moved },
                            ),
                        ));
                    }
                },
                _ => {
                    proof {
                        assert(!before.is_moving(id));
                    }
                },
            }
            index = index + 1;
        }
        proof {
            assert(before.ball_order.take(count as int) =~= before.ball_order);
            assert(self@.state.ball_positions =~= before.ticked(elapsed).state.ball_positions);
            assert(self@.ball_velocities =~= before.ticked(elapsed).ball_velocities);
        }
    }
}

/// One press of a key by the hoop's controller.
pub struct HoopMove {
    pub direction: HorizontalDirection,
    pub seconds_pressed: Fixed,
}

impl GameView {
    /// The game after a whole sequence of key presses.
    pub open spec fn hoop_moved_all(self, moves: Seq<HoopMove>) -> GameView
        decreases moves.len(),
    {
        if moves.len() == 0 {
            self
        } else {
            self.hoop_moved_all(moves.drop_last()).hoop_moved(
                moves.last().direction,
                moves.last().seconds_pressed,
            )
        }
    }
}

/// However often and however long the hoop is moved, in whichever
/// directions, it stays between the walls.
pub proof fn lemma_hoop_stays_between_walls(game: GameView, moves: Seq<HoopMove>)
    requires
        game.wf(),
    ensures
        game.hoop_moved_all(moves).wf(),
        HOOP_MIN_X <= game.hoop_moved_all(moves).state.hoop_x.raw <= HOOP_MAX_X,
    decreases moves.len(),
{
    if moves.len() > 0 {
        lemma_hoop_stays_between_walls(game, moves.drop_last());
    }
}

/// A client that applies the updates of a tick, in the order in which they
/// are reported, to the state before the tick holds the state after it.
pub proof fn lemma_tick_updates_give_ticked_state(game: GameView, elapsed: Fixed)
    requires
        game.wf(),
    ensures
        applied_all(game.tick_updates(elapsed), game.state) == game.ticked(elapsed).state,
{
    lemma_updates_for_prefix(game, game.ball_order, elapsed);
    let reached = applied_all(game.tick_updates(elapsed), game.state);
    assert(reached.ball_positions =~= game.ticked(elapsed).state.ball_positions);
}

proof fn lemma_updates_for_prefix(game: GameView, ids: Seq<u32>, elapsed: Fixed)
    ensures
        applied_all(game.updates_for(ids, elapsed), game.state).hoop_x == game.state.hoop_x,
        applied_all(game.updates_for(ids, elapsed), game.state).ball_positions == Map::new(
            |id: u32| game.state.ball_positions.contains_key(id),
            |id: u32|
                if ids.contains(id) && game.is_moving(id) {
                    game.position_after(id, elapsed)
                } else {
                    game.state.ball_positions[id]
                },
        ),
    decreases ids.len(),
{
    let reached = applied_all(game.updates_for(ids, elapsed), game.state);
    let expected = Map::new(
        |id: u32| game.state.ball_positions.contains_key(id),
        |id: u32|
            if ids.contains(id) && game.is_moving(id) {
                game.position_after(id, elapsed)
            } else {
                game.state.ball_positions[id]
            },
    );
    if ids.len() == 0 {
        assert(reached.ball_positions =~= expected);
    } else {
        let earlier = ids.drop_last();
        lemma_updates_for_prefix(game, earlier, elapsed);
        assert forall|id: u32| ids.contains(id) <==> (earlier.contains(id) || id
            == ids.last()) by {
            if earlier.contains(id) {
                let k = choose|k: int| 0 <= k < earlier.len() && earlier[k] == id;
                assert(ids[k] == id);
            }
            if id == ids.last() {
                assert(ids[ids.len() - 1] == id);
            }
            if ids.contains(id) {
                let k = choose|k: int| 0 <= k < ids.len() && ids[k] == id;
                if k < ids.len() - 1 {
                    assert(earlier[k] == id);
                }
            }
        }
        if game.is_moving(ids.last()) {
            let update = UpdateState::MoveBall {
                id: ids.last(),
                position: game.position_after(ids.last(), elapsed),
            };
            let before = game.updates_for(earlier, elapsed);
            assert(before.push(update).drop_last() =~= before);
            assert(before.push(update).last() == update);
        }
        assert(reached.ball_positions =~= expected);
    }
}

/// The greatest speed, distance from the origin and whole duration, in raw
/// units, for which the law of added ticks is stated: within them no step
/// of a flight reaches the end of the representable range.
pub const LAW_LIMIT: i64 = 1_000_000_000_000;

/// A ball in flight: where it is and how fast it moves.
pub struct Flight {
    pub position: Point,
    pub velocity: Point,
}

/// The sum of the durations, in raw units.
pub open spec fn total_duration(durations: Seq<Fixed>) -> int
    decreases durations.len(),
{
    if durations.len() == 0 {
        0
    } else {
        total_duration(durations.drop_last()) + durations.last().raw
    }
}

/// The sum of the durations as one duration.
pub open spec fn whole_duration(durations: Seq<Fixed>) -> Fixed {
    Fixed { raw: total_duration(durations) as i64 }
}

/// None of the durations is negative.
pub open spec fn none_negative(durations: Seq<Fixed>) -> bool {
    forall|i: int| 0 <= i < durations.len() ==> 0 <= (#[trigger] durations[i]).raw
}

/// The ball after ticks of the given durations, one after the other: in
/// each it moves with the velocity it has and then loses upward speed to
/// gravity.
pub open spec fn flown(start: Flight, durations: Seq<Fixed>) -> Flight
    decreases durations.len(),
{
    if durations.len() == 0 {
        start
    } else {
        let before = flown(start, durations.drop_last());
        Flight {
            position: moved_point(before.position, before.velocity, durations.last()),
            velocity: fallen_velocity(before.velocity, durations.last()),
        }
    }
}

/// The flight starts within the limit of the law of added ticks, sideways
/// and in its speed.
pub open spec fn within_law_limit(start: Flight) -> bool {
    &&& -LAW_LIMIT <= start.position.x.raw <= LAW_LIMIT
    &&& -LAW_LIMIT <= start.velocity.x.raw <= LAW_LIMIT
    &&& -LAW_LIMIT <= start.velocity.y.raw <= LAW_LIMIT
}

impl GameView {
    /// The game after ticks of the given durations, one after the other.
    pub open spec fn ticked_all(self, durations: Seq<Fixed>) -> GameView
        decreases durations.len(),
    {
        if durations.len() == 0 {
            self
        } else {
            self.ticked_all(durations.drop_last()).ticked(durations.last())
        }
    }

    /// The flight of ball `id` as it is now.
    pub open spec fn flight_of(self, id: u32) -> Flight {
        Flight { position: self.state.ball_positions[id], velocity: self.ball_velocities[id]->0 }
    }
}

/// What the rounded products of `v` with each duration add up to.
spec fn rounded_sum(v: int, durations: Seq<Fixed>) -> int
    decreases durations.len(),
{
    if durations.len() == 0 {
        0
    } else {
        rounded_sum(v, durations.drop_last()) + div_toward_zero(
            v * durations.last().raw,
            SCALE as int,
        )
    }
}

proof fn lemma_rounded_parts(p: int, q: int)
    ensures
        p >= 0 && q >= 0 ==> div_toward_zero(p, SCALE as int) + div_toward_zero(q, SCALE as int)
            <= div_toward_zero(p + q, SCALE as int) <= div_toward_zero(p, SCALE as int)
            + div_toward_zero(q, SCALE as int) + 1,
        p <= 0 && q <= 0 ==> div_toward_zero(p, SCALE as int) + div_toward_zero(q, SCALE as int)
            - 1 <= div_toward_zero(p + q, SCALE as int) <= div_toward_zero(p, SCALE as int)
            + div_toward_zero(q, SCALE as int),
{
}

proof fn lemma_product_parts(v: int, first: int, second: int)
    requires
        -LAW_LIMIT <= v <= LAW_LIMIT,
        0 <= first <= LAW_LIMIT,
        0 <= second <= LAW_LIMIT,
    ensures
        v * (first + second) == v * first + v * second,
        -(LAW_LIMIT * LAW_LIMIT) <= v * first <= LAW_LIMIT * LAW_LIMIT,
        -(LAW_LIMIT * LAW_LIMIT) <= v * second <= LAW_LIMIT * LAW_LIMIT,
        v >= 0 ==> v * first >= 0 && v * second >= 0,
        v <= 0 ==> v * first <= 0 && v * second <= 0,
{
    assert(v * (first + second) == v * first + v * second) by (nonlinear_arith);
    assert(-(LAW_LIMIT * LAW_LIMIT) <= v * first <= LAW_LIMIT * LAW_LIMIT) by (nonlinear_arith)
        requires
            -LAW_LIMIT <= v <= LAW_LIMIT,
            0 <= first <= LAW_LIMIT,
    ;
    assert(-(LAW_LIMIT * LAW_LIMIT) <= v * second <= LAW_LIMIT * LAW_LIMIT) by (nonlinear_arith)
        requires
            -LAW_LIMIT <= v <= LAW_LIMIT,
            0 <= second <= LAW_LIMIT,
    ;
    assert(v >= 0 ==> v * first >= 0 && v * second >= 0) by (nonlinear_arith)
        requires
            0 <= first,
            0 <= second,
    ;
    assert(v <= 0 ==> v * first <= 0 && v * second <= 0) by (nonlinear_arith)
        requires
            0 <= first,
            0 <= second,
    ;
}

proof fn lemma_durations_so_far(durations: Seq<Fixed>)
    requires
        none_negative(durations),
        durations.len() > 0,
    ensures
        none_negative(durations.drop_last()),
        0 <= total_duration(durations.drop_last()) <= total_duration(durations),
        0 <= durations.last().raw <= total_duration(durations),
    decreases durations.len(),
{
    let earlier = durations.drop_last();
    assert forall|i: int| 0 <= i < earlier.len() implies 0 <= (#[trigger] earlier[i]).raw by {
        assert(earlier[i] == durations[i]);
    }
    assert(durations[durations.len() - 1].raw >= 0);
    if earlier.len() > 0 {
        lemma_durations_so_far(earlier);
    }
}

proof fn lemma_rounded_sum(v: int, durations: Seq<Fixed>)
    requires
        -LAW_LIMIT <= v <= LAW_LIMIT,
        none_negative(durations),
        total_duration(durations) <= LAW_LIMIT,
    ensures
        0 <= total_duration(durations),
        -(LAW_LIMIT * LAW_LIMIT) <= v * total_duration(durations) <= LAW_LIMIT * LAW_LIMIT,
        v >= 0 ==> 0 <= rounded_sum(v, durations) <= div_toward_zero(
            v * total_duration(durations),
            SCALE as int,
        ) <= rounded_sum(v, durations) + durations.len(),
        v <= 0 ==> rounded_sum(v, durations) - durations.len() <= div_toward_zero(
            v * total_duration(durations),
            SCALE as int,
        ) <= rounded_sum(v, durations) <= 0,
    decreases durations.len(),
{
    if durations.len() == 0 {
        assert(v * 0 == 0);
    } else {
        let earlier = durations.drop_last();
        let whole = total_duration(durations);
        lemma_durations_so_far(durations);
        assert(-(LAW_LIMIT * LAW_LIMIT) <= v * whole <= LAW_LIMIT * LAW_LIMIT) by (nonlinear_arith)
            requires
                -LAW_LIMIT <= v <= LAW_LIMIT,
                0 <= whole <= LAW_LIMIT,
        ;
        lemma_rounded_sum(v, earlier);
        lemma_product_parts(v, total_duration(earlier), durations.last().raw as int);
        lemma_rounded_parts(v * total_duration(earlier), v * durations.last().raw);
    }
}

proof fn lemma_flown(start: Flight, durations: Seq<Fixed>)
    requires
        within_law_limit(start),
        none_negative(durations),
        total_duration(durations) <= LAW_LIMIT,
    ensures
        flown(start, durations).velocity.x == start.velocity.x,
        flown(start, durations).position.x.raw == start.position.x.raw + rounded_sum(
            start.velocity.x.raw as int,
            durations,
        ),
        flown(start, durations).velocity.y.raw == start.velocity.y.raw - rounded_sum(
            GRAVITY as int,
            durations,
        ),
    decreases durations.len(),
{
    if durations.len() > 0 {
        let earlier = durations.drop_last();
        let last = durations.last();
        lemma_durations_so_far(durations);
        lemma_flown(start, earlier);
        lemma_rounded_sum(start.velocity.x.raw as int, earlier);
        lemma_rounded_sum(start.velocity.x.raw as int, durations);
        lemma_rounded_sum(GRAVITY as int, earlier);
        lemma_rounded_sum(GRAVITY as int, durations);
        lemma_product_parts(
            start.velocity.x.raw as int,
            total_duration(earlier),
            last.raw as int,
        );
        lemma_product_parts(GRAVITY as int, total_duration(earlier), last.raw as int);
    }
}

/// Ticks add up, but for rounding.
///
/// Let a ball fly through any number of ticks, none of a negative duration,
/// with all numbers within the limit. Sideways it gets as far as in one tick
/// of the whole duration, to within one raw unit for each tick. Gravity
/// takes as much off its upward speed as in one tick of the whole duration,
/// never more, and less by at most one raw unit for each tick. Its sideways
/// speed stays the same.
pub proof fn lemma_ticks_add_up(start: Flight, durations: Seq<Fixed>)
    requires
        within_law_limit(start),
        none_negative(durations),
        total_duration(durations) <= LAW_LIMIT,
    ensures
        flown(start, durations).velocity.x == start.velocity.x,
        -durations.len() <= flown(start, durations).position.x.raw - moved_point(
            start.position,
            start.velocity,
            whole_duration(durations),
        ).x.raw <= durations.len(),
        0 <= flown(start, durations).velocity.y.raw - fallen_velocity(
            start.velocity,
            whole_duration(durations),
        ).y.raw <= durations.len(),
{
    lemma_flown(start, durations);
    lemma_rounded_sum(start.velocity.x.raw as int, durations);
    lemma_rounded_sum(GRAVITY as int, durations);
}

proof fn lemma_ticked_all_flies(game: GameView, id: u32, durations: Seq<Fixed>)
    requires
        game.wf(),
        game.is_moving(id),
    ensures
        game.ticked_all(durations).wf(),
        game.ticked_all(durations).is_moving(id),
        game.ticked_all(durations).flight_of(id) == flown(game.flight_of(id), durations),
    decreases durations.len(),
{
    if durations.len() > 0 {
        lemma_ticked_all_flies(game, id, durations.drop_last());
    }
}

/// Ticks of a game add up, but for rounding.
///
/// Take a ball of a game that has been shot, and let the game tick any
/// number of times, with no duration negative and all numbers within the
/// limit. Compared with one tick of the whole duration the ball is sideways
/// in the same place, to within one raw unit for each tick; its sideways
/// speed is the same; and its upward speed is the same or greater, by at
/// most one raw unit for each tick.
pub proof fn lemma_game_ticks_add_up(game: GameView, id: u32, durations: Seq<Fixed>)
    requires
        game.wf(),
        game.is_moving(id),
        within_law_limit(game.flight_of(id)),
        none_negative(durations),
        total_duration(durations) <= LAW_LIMIT,
    ensures
        game.ticked_all(durations).is_moving(id),
        game.ticked_all(durations).flight_of(id).velocity.x == game.ticked(
            whole_duration(durations),
        ).flight_of(id).velocity.x,
        -durations.len() <= game.ticked_all(durations).flight_of(id).position.x.raw - game.ticked(
            whole_duration(durations),
        ).flight_of(id).position.x.raw <= durations.len(),
        0 <= game.ticked_all(durations).flight_of(id).velocity.y.raw - game.ticked(
            whole_duration(durations),
        ).flight_of(id).velocity.y.raw <= durations.len(),
{
    lemma_ticked_all_flies(game, id, durations);
    lemma_ticks_add_up(game.flight_of(id), durations);
}

} // verus!
