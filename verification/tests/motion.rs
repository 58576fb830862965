#![allow(dead_code)]

use ahoy_kcc::clock::{span, Duration, Stopwatch, Time};
use ahoy_kcc::config::CharacterController;
use ahoy_kcc::context::{
    AccumulatedInput, BodyMeasures, CharacterControllerDerivedProps, CharacterControllerOutput,
    CharacterControllerState, CharacterLook, CtxItem, MoveHitData, WaterLevel,
};
use ahoy_kcc::scalar::{num, Scalar};
use ahoy_kcc::vector::{one, up, vec3, zero, Quat, Transform, Vec3};
use ahoy_kcc::world::{
    ApplyMovement, CarryPoint, CastMove, ColliderBounds, ColliderFriction, Contact, Overlap,
    Placement, Platform, Session, Slide, SlideOutput, World,
};
use std::cell::RefCell;
use std::collections::VecDeque;
use ahoy_kcc::casting::{
    cast_move, cast_move_hands, closest_wall_normal, depenetrate_character, is_intersecting,
    move_character, pick_wall, snap_to_ground,
};
use ahoy_kcc::context::TouchingEntity;
use ahoy_kcc::motion::{
    air_accelerate, calculate_3d_wish_velocity, calculate_wish_velocity, finish_gravity, forward,
    friction, ground_accelerate, right, start_gravity, validate_velocity, water_accelerate,
};
use ahoy_kcc::vector::Vec2;
use ahoy_kcc::world::Shape;

fn s(x: f32) -> Scalar {
    num(x.to_bits())
}

fn f(x: Scalar) -> f32 {
    f32::from_bits(x.bits())
}

fn v(x: f32, y: f32, z: f32) -> Vec3 {
    vec3(s(x), s(y), s(z))
}

fn xyz(a: Vec3) -> [f32; 3] {
    [f(a.x), f(a.y), f(a.z)]
}

fn identity() -> Quat {
    Quat { x: s(0.0), y: s(0.0), z: s(0.0), w: s(1.0) }
}

fn at(x: f32, y: f32, z: f32) -> Transform {
    Transform { translation: v(x, y, z), rotation: identity(), scale: one() }
}

fn clock(millis: u64) -> Stopwatch {
    Stopwatch { elapsed: millis_span(millis), paused: false }
}

fn millis_span(millis: u64) -> Duration {
    span(millis as u128 * 1_000_000)
}

/// Steps of an eighth of a second.
fn time() -> Time {
    Time { delta: millis_span(125), delta_secs: s(0.125) }
}

fn tuning() -> CharacterController {
    CharacterController {
        speed: s(10.0),
        max_speed: s(100.0),
        acceleration_hz: s(8.0),
        gravity: s(32.0),
        friction_hz: s(4.0),
        stop_speed: s(2.0),
        air_friction: s(0.0),
        ground_distance: s(0.125),
        min_walk_cos: s(0.75),
        unground_speed: s(9.0),
        skin_width: s(0.0625),
        step_size: s(0.5),
        min_step_ledge_space: s(0.25),
        step_down_detection_distance: s(0.2),
        air_control: s(16.0),
        max_carve_speed: s(50.0),
        carve_gain: s(0.5),
        water_gravity: s(2.0),
        water_slowdown: s(0.5),
        water_acceleration_hz: s(8.0),
        crouch_height: s(1.0),
        crouch_speed_scale: s(0.5),
        slide_friction_hz: s(1.0),
        slide_end_speed: s(3.0),
        slide_min_speed: s(6.0),
        slide_boost: s(4.0),
        slide_boost_max_speed: s(16.0),
        slide_cooldown: millis_span(500),
        jump_height: s(1.0),
        jump_input_buffer: millis_span(150),
        coyote_time: millis_span(100),
        jump_crane_chain_time: millis_span(50),
        land_momentum_window: millis_span(200),
        land_momentum_preservation: s(0.5),
        tac_input_buffer: millis_span(150),
        tac_cooldown: millis_span(300),
        max_tac_cos: s(0.5),
        tac_jump_factor: s(1.0),
        tac_power: s(2.0),
        bounce_input_buffer: millis_span(150),
        bounce_cooldown: millis_span(300),
        bounce_distance: s(0.5),
        bounce_restitution: s(0.5),
        bounce_min_speed: s(3.0),
        bounce_jump_factor: s(0.5),
        ledge_jump_factor: s(1.0),
        ledge_jump_power: s(1.5),
        crane_height: s(1.5),
        crane_speed: s(4.0),
        crane_input_buffer: millis_span(200),
        min_crane_ledge_space: s(0.5),
        min_crane_cos: s(0.5),
        mantle_height: s(2.0),
        mantle_speed: s(4.0),
        mantle_input_buffer: millis_span(150),
        min_mantle_cos: s(0.5),
        max_ledge_grab_distance: s(0.5),
        min_ledge_grab_space: v(0.25, 0.125, 0.25),
        climb_pull_up_height: s(0.25),
        climb_reverse_sin: s(0.5),
        climb_sensitivity: s(2.0),
    }
}

fn still() -> CharacterControllerState {
    CharacterControllerState {
        orientation: identity(),
        grounded: None,
        platform_velocity: zero(),
        platform_angular_velocity: zero(),
        crouching: false,
        sliding: false,
        crane_height_left: None,
        mantle: None,
        last_velocity: zero(),
        tac_velocity: s(0.0),
        land_speed: s(0.0),
        last_ground: clock(1_000),
        last_land: clock(1_000),
        last_slide: clock(1_000),
        last_bounce: clock(1_000),
        last_jump: clock(1_000),
        last_tac: clock(1_000),
        last_step_up: clock(1_000),
        last_step_down: clock(1_000),
    }
}

fn hands_off() -> AccumulatedInput {
    AccumulatedInput {
        last_movement: None,
        jumped: None,
        tac: None,
        bounced: None,
        craned: None,
        mantled: None,
        climbdown: None,
        crouched: false,
        swim_up: false,
    }
}

fn character() -> CtxItem {
    CtxItem {
        entity: 1,
        velocity: zero(),
        state: still(),
        derived: CharacterControllerDerivedProps {
            standing: BodyMeasures { radius: s(0.5), pos_to_head_dist: s(1.0) },
            crouching: BodyMeasures { radius: s(0.5), pos_to_head_dist: s(0.5) },
        },
        output: CharacterControllerOutput { touching_entities: vec![], mantle: None },
        transform: at(0.0, 1.0, 0.0),
        input: hands_off(),
        cfg: tuning(),
        water: WaterLevel::Dry,
        look: None,
        colliders: vec![11],
    }
}

fn hit(entity: u64, distance: f32, normal: Vec3) -> MoveHitData {
    MoveHitData {
        entity,
        distance: s(distance),
        point1: v(1.0, 2.0, 3.0),
        point2: zero(),
        normal1: normal,
        normal2: normal.negated(),
        collision_distance: s(distance + 0.0625),
    }
}

fn floor() -> MoveHitData {
    hit(5, 0.0625, up())
}

/// Surroundings that reply from a script, and remember what they were asked. Where the script ends,
/// nothing is in the way.
#[derive(Default)]
struct Script {
    casts: RefCell<VecDeque<Option<MoveHitData>>>,
    cast_queries: RefCell<Vec<CastMove>>,
    offsets: RefCell<VecDeque<Vec3>>,
    slides: RefCell<VecDeque<SlideOutput>>,
    slide_queries: RefCell<Vec<Slide>>,
    contacts: Vec<Contact>,
    overlaps: Vec<Overlap>,
    overlap_queries: RefCell<Vec<Placement>>,
    poses: Vec<(u64, (Vec3, Quat))>,
    platforms: Vec<(u64, Platform)>,
    collider_frictions: Vec<(u64, ColliderFriction)>,
    body_frictions: Vec<(u64, Scalar)>,
    bounds: Vec<(u64, ColliderBounds)>,
    carried: Option<Vec3>,
    carry_queries: RefCell<Vec<CarryPoint>>,
    apply_queries: RefCell<Vec<ApplyMovement>>,
    angle: Option<Scalar>,
    turns: RefCell<Vec<Scalar>>,
}

fn find<T: Copy>(list: &[(u64, T)], key: u64) -> Option<T> {
    list.iter().find(|(k, _)| *k == key).map(|(_, value)| *value)
}

impl World for Script {
    fn cast_move(&self, query: CastMove) -> Option<MoveHitData> {
        self.cast_queries.borrow_mut().push(query);
        self.casts.borrow_mut().pop_front().unwrap_or(None)
    }

    fn depenetrate(&self, _placement: Placement) -> Vec3 {
        self.offsets.borrow_mut().pop_front().unwrap_or(zero())
    }

    fn slide(&self, query: Slide) -> SlideOutput {
        self.slide_queries.borrow_mut().push(query);
        let free = SlideOutput {
            position: query.placement.position
                + query.velocity * s(query.delta.nanos() as f32 / 1e9),
            projected_velocity: query.velocity,
            touched: vec![],
        };
        self.slides.borrow_mut().pop_front().unwrap_or(free)
    }

    fn contacts(&self, _placement: Placement, _reach: Scalar) -> Vec<Contact> {
        self.contacts.clone()
    }

    fn overlaps(&self, placement: Placement) -> Vec<Overlap> {
        self.overlap_queries.borrow_mut().push(placement);
        self.overlaps.clone()
    }

    fn pose(&self, entity: u64) -> Option<(Vec3, Quat)> {
        find(&self.poses, entity)
    }

    fn platform(&self, entity: u64) -> Option<Platform> {
        find(&self.platforms, entity)
    }

    fn collider_friction(&self, entity: u64) -> Option<ColliderFriction> {
        find(&self.collider_frictions, entity)
    }

    fn body_friction(&self, body: u64) -> Option<Scalar> {
        find(&self.body_frictions, body)
    }

    fn bounds(&self, entity: u64) -> Option<ColliderBounds> {
        find(&self.bounds, entity)
    }

    fn seconds(&self, duration: Duration) -> Scalar {
        s(duration.nanos() as f32 / 1e9)
    }

    fn angle_between(&self, _from: Vec3, _to: Vec3) -> Scalar {
        self.angle.unwrap_or(s(0.0))
    }

    fn carry_point(&self, query: CarryPoint) -> Vec3 {
        self.carry_queries.borrow_mut().push(query);
        self.carried.unwrap_or(query.point + (query.to - query.from))
    }

    fn apply_movement(&self, query: ApplyMovement) -> Transform {
        self.apply_queries.borrow_mut().push(query);
        Transform {
            translation: query.current.translation
                + (query.moved.translation - query.original.translation),
            rotation: query.current.rotation,
            scale: query.current.scale,
        }
    }

    fn look_rotation(&self, look: CharacterLook) -> Quat {
        let half = f(look.yaw) / 2.0;
        Quat { x: s(0.0), y: s(half.sin()), z: s(0.0), w: s(half.cos()) }
    }

    fn turn_look(&self, look: CharacterLook, angle: Scalar) -> CharacterLook {
        self.turns.borrow_mut().push(angle);
        CharacterLook { yaw: look.yaw + angle, pitch: look.pitch }
    }
}

fn script(casts: Vec<Option<MoveHitData>>) -> Script {
    Script { casts: RefCell::new(casts.into()), ..Script::default() }
}

fn movements(world: &Script) -> Vec<[f32; 3]> {
    world.cast_queries.borrow().iter().map(|q| xyz(q.movement)).collect()
}

#[test]
fn wishes_follow_the_input() {
    let mut ctx = character();
    assert_eq!(xyz(calculate_wish_velocity(&ctx)), [0.0, 0.0, 0.0]);
    ctx.input.last_movement = Some(Vec2 { x: s(0.0), y: s(1.0) });
    assert_eq!(xyz(calculate_wish_velocity(&ctx)), [0.0, 0.0, -10.0]);
    ctx.input.last_movement = Some(Vec2 { x: s(1.0), y: s(0.0) });
    assert_eq!(xyz(calculate_wish_velocity(&ctx)), [10.0, 0.0, 0.0]);
    ctx.state.crouching = true;
    assert_eq!(xyz(calculate_wish_velocity(&ctx)), [5.0, 0.0, 0.0]);
}

#[test]
fn a_wish_is_level_and_a_three_dimensional_one_is_not() {
    let mut ctx = character();
    // Looking up by 60 degrees.
    let half = 30.0f32.to_radians();
    ctx.state.orientation =
        Quat { x: s(half.sin()), y: s(0.0), z: s(0.0), w: s(half.cos()) };
    ctx.input.last_movement = Some(Vec2 { x: s(0.0), y: s(1.0) });
    let level = calculate_wish_velocity(&ctx);
    assert_eq!(f(level.y), 0.0);
    assert!((f(level.z) + 10.0).abs() < 1e-4);
    let steep = calculate_3d_wish_velocity(&ctx);
    assert!((f(steep.y) - 10.0 * 60.0f32.to_radians().sin()).abs() < 1e-4);
    assert!((f(steep.z) + 5.0).abs() < 1e-4);
    assert!(f(forward(ctx.state.orientation).y) > 0.8);
    assert_eq!(xyz(right(ctx.state.orientation)), [1.0, 0.0, 0.0]);
}

#[test]
fn acceleration_adds_what_is_missing() {
    let mut ctx = character();
    ctx.velocity = v(2.0, 0.0, 0.0);
    // 10 * 8 / 8 = 10, but only 8 are missing.
    ground_accelerate(v(10.0, 0.0, 0.0), s(8.0), &time(), &mut ctx);
    assert_eq!(xyz(ctx.velocity), [10.0, 0.0, 0.0]);
    ground_accelerate(v(10.0, 0.0, 0.0), s(8.0), &time(), &mut ctx);
    assert_eq!(xyz(ctx.velocity), [10.0, 0.0, 0.0]);
    let mut slow = character();
    water_accelerate(v(0.0, 10.0, 0.0), s(0.8), &time(), &mut slow);
    assert_eq!(xyz(slow.velocity), [0.0, 1.0, 0.0]);
    let mut idle = character();
    idle.velocity = v(1.0, 2.0, 3.0);
    ground_accelerate(zero(), s(8.0), &time(), &mut idle);
    assert_eq!(xyz(idle.velocity), [1.0, 2.0, 3.0]);
}

#[test]
fn air_control_keeps_the_fall() {
    let world = Script { angle: Some(s(0.5)), ..Script::default() };
    let mut session = Session::new(&world);
    let mut ctx = character();
    ctx.velocity = v(10.0, -7.0, 0.0);
    air_accelerate(v(0.0, 0.0, 10.0), s(16.0), &time(), &mut session, &mut ctx, &at(0.0, 0.0, 0.0));
    assert_eq!(f(ctx.velocity.y), -7.0);
    // The push of 2 goes toward (0, 0, 10) from (10, 0, 0).
    let side = 2.0 * (10.0f32 / 200.0f32.sqrt());
    assert!((f(ctx.velocity.x) - (10.0 - side)).abs() < 1e-5);
    assert!((f(ctx.velocity.z) - side).abs() < 1e-5);
}

#[test]
fn carving_gains_at_speed_only() {
    let mut gained = character();
    gained.velocity = v(16.0, 0.0, 0.0);
    let mut session_world = Script { angle: Some(s(0.25)), ..Script::default() };
    let wish = v(10.0, 0.0, 0.0);
    {
        let mut session = Session::new(&session_world);
        air_accelerate(wish, s(16.0), &time(), &mut session, &mut gained, &at(0.0, 0.0, 0.0));
    }
    // Already at the target: nothing to push.
    assert_eq!(xyz(gained.velocity), [16.0, 0.0, 0.0]);
    gained.velocity = v(16.0, 0.0, 1.0);
    {
        let mut session = Session::new(&session_world);
        air_accelerate(wish, s(16.0), &time(), &mut session, &mut gained, &at(0.0, 0.0, 0.0));
    }
    let fast = gained.velocity;
    session_world.angle = Some(s(0.0));
    let mut plain = character();
    plain.velocity = v(16.0, 0.0, 1.0);
    {
        let mut session = Session::new(&session_world);
        air_accelerate(wish, s(16.0), &time(), &mut session, &mut plain, &at(0.0, 0.0, 0.0));
    }
    assert!(f(fast.x) > f(plain.velocity.x));
    let mut slow = character();
    slow.velocity = v(4.0, 0.0, 1.0);
    session_world.angle = Some(s(0.25));
    let mut same = character();
    same.velocity = v(4.0, 0.0, 1.0);
    {
        let mut session = Session::new(&session_world);
        air_accelerate(wish, s(16.0), &time(), &mut session, &mut slow, &at(0.0, 0.0, 0.0));
    }
    session_world.angle = Some(s(0.0));
    {
        let mut session = Session::new(&session_world);
        air_accelerate(wish, s(16.0), &time(), &mut session, &mut same, &at(0.0, 0.0, 0.0));
    }
    assert_eq!(slow.velocity, same.velocity);
}

#[test]
fn friction_brakes_by_an_exact_amount() {
    let world = Script {
        collider_frictions: vec![(5, ColliderFriction { friction: Some(s(0.5)), body: 6 })],
        ..Script::default()
    };
    let mut session = Session::new(&world);
    let mut ctx = character();
    ctx.state.grounded = Some(floor());
    ctx.velocity = v(3.0, 0.0, 4.0);
    // 5 - 5 * (4 * 0.5) / 8 = 3.75, three quarters.
    friction(&time(), s(0.1), &mut session, &mut ctx, &at(0.0, 0.0, 0.0));
    assert_eq!(xyz(ctx.velocity), [2.25, 0.0, 3.0]);
    // Below the stop speed the stop speed counts: 1 - 2 * 2 / 8 = 0.5.
    ctx.velocity = v(1.0, 0.0, 0.0);
    friction(&time(), s(0.1), &mut session, &mut ctx, &at(0.0, 0.0, 0.0));
    assert_eq!(xyz(ctx.velocity), [0.5, 0.0, 0.0]);
    // A slide brakes less: 4 - 4 * 0.5 / 8 = 3.75.
    ctx.velocity = v(4.0, 0.0, 0.0);
    ctx.state.sliding = true;
    friction(&time(), s(0.1), &mut session, &mut ctx, &at(0.0, 0.0, 0.0));
    assert_eq!(xyz(ctx.velocity), [3.75, 0.0, 0.0]);
}

#[test]
fn friction_comes_from_the_collider_the_body_or_the_default() {
    let run = |world: &Script, default: f32| {
        let mut session = Session::new(world);
        let mut ctx = character();
        ctx.state.grounded = Some(floor());
        ctx.velocity = v(8.0, 0.0, 0.0);
        friction(&time(), s(default), &mut session, &mut ctx, &at(0.0, 0.0, 0.0));
        f(ctx.velocity.x)
    };
    let mut world = Script::default();
    assert_eq!(run(&world, 0.25), 7.0);
    world.collider_frictions = vec![(5, ColliderFriction { friction: None, body: 6 })];
    assert_eq!(run(&world, 0.25), 7.0);
    world.body_frictions = vec![(6, s(0.5))];
    assert_eq!(run(&world, 0.25), 6.0);
    world.collider_frictions = vec![(5, ColliderFriction { friction: Some(s(1.0)), body: 6 })];
    assert_eq!(run(&world, 0.25), 4.0);
}

#[test]
fn friction_leaves_flight_and_rest_alone() {
    let world = Script::default();
    let mut session = Session::new(&world);
    let mut ctx = character();
    ctx.velocity = v(3.0, 4.0, 5.0);
    friction(&time(), s(1.0), &mut session, &mut ctx, &at(0.0, 0.0, 0.0));
    assert_eq!(xyz(ctx.velocity), [3.0, 4.0, 5.0]);
    ctx.state.grounded = Some(floor());
    ctx.velocity = v(0.0005, 0.0, 0.0);
    friction(&time(), s(1.0), &mut session, &mut ctx, &at(0.0, 0.0, 0.0));
    assert_eq!(f(ctx.velocity.x), 0.0005);
    // In water the whole speed counts, with the friction of the air.
    ctx.state.grounded = None;
    ctx.water = WaterLevel::Center;
    ctx.cfg.air_friction = s(0.5);
    ctx.velocity = v(0.0, 8.0, 0.0);
    friction(&time(), s(1.0), &mut session, &mut ctx, &at(0.0, 0.0, 0.0));
    assert_eq!(xyz(ctx.velocity), [0.0, 6.0, 0.0]);
}

#[test]
fn velocities_are_made_valid() {
    let mut ctx = character();
    ctx.velocity = v(f32::NAN, 3.0, f32::INFINITY);
    validate_velocity(&mut ctx);
    assert_eq!(xyz(ctx.velocity), [0.0, 3.0, 0.0]);
    ctx.velocity = v(300.0, 0.0, 400.0);
    validate_velocity(&mut ctx);
    assert_eq!(xyz(ctx.velocity), [60.000004, 0.0, 80.0]);
    // Too long for its length to be finite.
    ctx.velocity = v(f32::MAX, -f32::MAX, 1e30);
    validate_velocity(&mut ctx);
    assert_eq!(xyz(ctx.velocity), [0.0, 0.0, 0.0]);
    ctx.velocity = v(1e-30, -1e-30, 0.0);
    validate_velocity(&mut ctx);
    assert_eq!(xyz(ctx.velocity), [1e-30, -1e-30, 0.0]);
}

#[test]
fn gravity_pulls_in_two_halves() {
    let mut ctx = character();
    ctx.velocity = v(1.0, 0.0, 0.0);
    ctx.state.platform_velocity = v(0.0, 8.0, 2.0);
    // (8 - 16) / 8
    start_gravity(&time(), &mut ctx);
    assert_eq!(xyz(ctx.velocity), [1.0, -1.0, 0.0]);
    assert_eq!(xyz(ctx.state.platform_velocity), [0.0, 0.0, 2.0]);
    finish_gravity(&time(), &mut ctx);
    assert_eq!(xyz(ctx.velocity), [1.0, -3.0, 0.0]);
}

#[test]
fn casts_use_the_current_shape() {
    let world = script(vec![None, None, None]);
    let mut session = Session::new(&world);
    let mut ctx = character();
    let here = at(1.0, 2.0, 3.0);
    assert!(cast_move(v(0.0, -1.0, 0.0), &mut session, &ctx, &here).is_none());
    ctx.state.crouching = true;
    assert!(cast_move(v(0.0, -1.0, 0.0), &mut session, &ctx, &here).is_none());
    assert!(cast_move_hands(v(0.0, -1.0, 0.0), &mut session, &ctx, &here).is_none());
    let asked = world.cast_queries.borrow();
    assert_eq!(asked[0].placement.shape, Shape::Standing);
    assert_eq!(asked[1].placement.shape, Shape::Crouching);
    assert_eq!(asked[2].placement.shape, Shape::Hands);
    assert_eq!(asked[0].placement.entity, 1);
    assert_eq!(asked[2].placement.entity, 1);
    assert_eq!(xyz(asked[0].placement.position), [1.0, 2.0, 3.0]);
    assert_eq!(f(asked[0].skin_width), 0.0625);
}

#[test]
fn slides_record_touches_and_losses() {
    let touch = TouchingEntity {
        entity: 9,
        distance: s(0.5),
        point: zero(),
        normal: up(),
        position: zero(),
        velocity: zero(),
        collision_distance: s(0.5),
    };
    let world = Script::default();
    world.slides.borrow_mut().push_back(SlideOutput {
        position: v(7.0, 0.0, 0.0),
        projected_velocity: v(0.0, 0.0, 4.0),
        touched: vec![touch],
    });
    let mut session = Session::new(&world);
    let mut ctx = character();
    ctx.state.grounded = Some(floor());
    ctx.state.tac_velocity = s(2.0);
    ctx.velocity = v(3.0, 0.0, 4.0);
    let mut here = at(1.0, 0.0, 0.0);
    move_character(&time(), &mut session, &mut ctx, &mut here);
    assert_eq!(xyz(here.translation), [7.0, 0.0, 0.0]);
    assert_eq!(xyz(ctx.velocity), [0.0, 0.0, 4.0]);
    assert_eq!(xyz(ctx.state.last_velocity), [3.0, 0.0, 4.0]);
    assert_eq!(f(ctx.state.tac_velocity), 2.0f32 * 0.99 + 3.0);
    assert_eq!(ctx.output.touching_entities, vec![touch]);
    let asked = world.slide_queries.borrow();
    assert_eq!(asked[0].ground.map(xyz), Some([0.0, 1.0, 0.0]));
    assert_eq!(asked[0].delta, millis_span(125));
}

#[test]
fn depenetration_moves_the_body() {
    let world = Script::default();
    world.offsets.borrow_mut().push_back(v(0.5, 0.25, 0.0));
    let mut session = Session::new(&world);
    let ctx = character();
    let mut here = at(1.0, 1.0, 1.0);
    depenetrate_character(&mut session, &ctx, &mut here);
    assert_eq!(xyz(here.translation), [1.5, 1.25, 1.0]);
}

#[test]
fn snapping_lowers_onto_near_ground() {
    let below = |distance: f32, normal: Vec3| Some(hit(5, distance, normal));
    let run = |casts: Vec<Option<MoveHitData>>| {
        let world = script(casts);
        let mut session = Session::new(&world);
        let mut ctx = character();
        let mut here = at(0.0, 1.0, 0.0);
        snap_to_ground(&mut session, &mut ctx, &mut here);
        (f(here.translation.y), ctx.state.last_step_down.elapsed == span(0), movements(&world))
    };
    // Nothing above: starts 0.125 higher, and falls by half a unit.
    let (y, stepped, asked) = run(vec![None, below(0.5, up())]);
    assert_eq!(y, 0.625);
    assert!(stepped);
    assert_eq!(asked, vec![[0.0, 0.125, 0.0], [0.0, -0.625, 0.0]]);
    // A small drop is no step down.
    let (y, stepped, _) = run(vec![None, below(0.25, up())]);
    assert_eq!(y, 0.875);
    assert!(!stepped);
    // Something above limits the start.
    let (y, _, asked) = run(vec![below(0.0625, v(0.0, -1.0, 0.0)), below(0.25, up())]);
    assert_eq!(y, 0.8125);
    assert_eq!(asked[1], [0.0, -0.5625, 0.0]);
    // Nothing below, too steep, too near, or inside of something.
    assert_eq!(run(vec![None, None]).0, 1.0);
    assert_eq!(run(vec![None, below(0.5, v(0.8, 0.6, 0.0))]).0, 1.0);
    assert_eq!(run(vec![None, below(0.125, up())]).0, 1.0);
    let mut inside = hit(5, 0.5, up());
    inside.collision_distance = s(0.0);
    assert_eq!(run(vec![None, Some(inside)]).0, 1.0);
}

#[test]
fn the_least_deep_wall_is_picked() {
    let contact = |penetration: f32, normal: Vec3| Contact {
        point: v(penetration, 0.0, 0.0),
        penetration: s(penetration),
        normal,
    };
    let level = v(1.0, 0.0, 0.0);
    let all = vec![
        contact(-0.25, level),
        contact(-0.5, v(0.0, 0.0, 1.0)),
        contact(-0.75, up()),
        contact(-0.125, level),
    ];
    let wall = pick_wall(&all, s(0.75)).unwrap();
    assert_eq!(f(wall.penetration), -0.5);
    assert!(pick_wall(&vec![contact(0.0, up())], s(0.75)).is_none());
    assert!(pick_wall(&vec![], s(0.75)).is_none());
    // Of two alike the later one.
    let twins = vec![contact(0.5, level), contact(0.5, v(-1.0, 0.0, 0.0))];
    assert_eq!(xyz(pick_wall(&twins, s(0.75)).unwrap().normal), [-1.0, 0.0, 0.0]);
    let world = Script { contacts: all, ..Script::default() };
    let mut session = Session::new(&world);
    let ctx = character();
    let found = closest_wall_normal(s(0.5), &mut session, &ctx, &at(0.0, 0.0, 0.0)).unwrap();
    assert_eq!((xyz(found.0), xyz(found.1)), ([-0.5, 0.0, 0.0], [0.0, 0.0, 1.0]));
}

#[test]
fn water_does_not_block() {
    let wet = Overlap { entity: 3, water: true };
    let solid = Overlap { entity: 4, water: false };
    let run = |overlaps: Vec<Overlap>| {
        let world = Script { overlaps, ..Script::default() };
        let mut session = Session::new(&world);
        let ctx = character();
        is_intersecting(&mut session, &ctx, &at(0.0, 0.0, 0.0))
    };
    assert!(!run(vec![]));
    assert!(!run(vec![wet, wet]));
    assert!(run(vec![wet, solid]));
}

fn length(a: Vec3) -> f64 {
    let [x, y, z] = xyz(a).map(f64::from);
    (x * x + y * y + z * z).sqrt()
}

#[test]
fn valid_velocities_are_no_longer_than_the_limit() {
    let parts = [0.0f32, 1e-30, -0.3, 7.0, -123.456, 9.9e8, 3e19, f32::MAX, f32::NAN];
    for max in [0.0f32, 1e-20, 0.5, 100.0, 1e9, 1e18, f32::INFINITY] {
        for x in parts {
            for y in parts {
                let mut ctx = character();
                ctx.cfg.max_speed = s(max);
                ctx.velocity = v(x, y, -2.5);
                validate_velocity(&mut ctx);
                assert!(xyz(ctx.velocity).iter().all(|part| part.is_finite()));
                assert!(max.is_infinite() || length(ctx.velocity) <= f64::from(max) * 1.000001 + 1e-13);
                // Once more changes nothing, unless rounding left it above the limit.
                let once = ctx.velocity;
                validate_velocity(&mut ctx);
                if !(s(max) * s(max)).lt(once.length_squared()) {
                    assert_eq!(ctx.velocity, once);
                }
            }
        }
    }
}

#[test]
fn wishes_are_for_nothing_or_for_the_full_speed() {
    let mut ctx = character();
    for yaw in [0.0f32, 0.3, 1.7, 4.0] {
        let (sin, cos) = (yaw / 2.0).sin_cos();
        ctx.state.orientation = Quat { x: s(0.0), y: s(sin), z: s(0.0), w: s(cos) };
        for x in [-1.0f32, -0.2, 0.0, 0.7, 30.0] {
            for y in [-3.0f32, 0.0, 1e-3, 1.0] {
                ctx.input.last_movement = Some(Vec2 { x: s(x), y: s(y) });
                let wish = calculate_wish_velocity(&ctx);
                assert_eq!(f(wish.y), 0.0);
                if x == 0.0 && y == 0.0 {
                    assert_eq!(length(wish), 0.0);
                } else {
                    assert!((length(wish) - 10.0).abs() < 1e-4);
                }
            }
        }
    }
    ctx.input.last_movement = None;
    assert_eq!(length(calculate_wish_velocity(&ctx)), 0.0);
}

#[test]
fn friction_scales_all_parts_alike() {
    let world = Script::default();
    let mut session = Session::new(&world);
    let mut ctx = character();
    ctx.state.grounded = Some(floor());
    // From 5 by 5 * 4 / 8, a half.
    ctx.velocity = v(-3.0, 1.5, 4.0);
    friction(&time(), s(1.0), &mut session, &mut ctx, &at(0.0, 0.0, 0.0));
    assert_eq!(xyz(ctx.velocity), [-1.5, 0.75, 2.0]);
    // More than there is.
    friction(&time(), s(8.0), &mut session, &mut ctx, &at(0.0, 0.0, 0.0));
    assert_eq!(xyz(ctx.velocity).map(f32::abs), [0.0, 0.0, 0.0]);
}

#[test]
fn a_push_in_the_air_stays_within_its_budget() {
    let world = Script::default();
    let mut session = Session::new(&world);
    let mut ctx = character();
    // Two units of push towards ten.
    air_accelerate(v(10.0, 0.0, 0.0), s(16.0), &time(), &mut session, &mut ctx, &at(0.0, 0.0, 0.0));
    assert_eq!(xyz(ctx.velocity), [2.0, 0.0, 0.0]);
    // A budget for the whole way: a turn at speed loses nothing.
    ctx.velocity = v(0.0, -1.0, 20.0);
    air_accelerate(v(10.0, 0.0, 0.0), s(800.0), &time(), &mut session, &mut ctx, &at(0.0, 0.0, 0.0));
    assert!((length(ctx.velocity.flat()) - 20.0).abs() < 1e-4);
    assert_eq!(f(ctx.velocity.y), -1.0);
}

#[test]
fn snapping_drops_straight_by_no_more_than_a_step() {
    for (above, below) in [(None, 0.130f32), (None, 0.4), (None, 0.625), (Some(0.0), 0.5)] {
        let ceiling = above.map(|distance| hit(4, distance, v(0.0, -1.0, 0.0)));
        let world = script(vec![ceiling, Some(hit(5, below, up()))]);
        let mut session = Session::new(&world);
        let mut ctx = character();
        ctx.velocity = v(1.0, 2.0, 3.0);
        let mut here = at(0.3, 1.0, -0.7);
        snap_to_ground(&mut session, &mut ctx, &mut here);
        let drop = 1.0 - f(here.translation.y);
        assert!(drop >= 0.0 && drop <= f(ctx.cfg.step_size));
        assert_eq!([f(here.translation.x), f(here.translation.z)], [0.3, -0.7]);
        assert_eq!(xyz(ctx.velocity), [1.0, 2.0, 3.0]);
        assert_eq!(ctx.state.last_step_down.elapsed == span(0), drop > 0.2);
    }
}

#[test]
fn right_up_and_backward_form_a_frame() {
    let dot = |a: Vec3, b: Vec3| {
        let (a, b) = (xyz(a).map(f64::from), xyz(b).map(f64::from));
        a[0] * b[0] + a[1] * b[1] + a[2] * b[2]
    };
    for (yaw, pitch) in [(0.0f32, 0.0f32), (0.4, -1.2), (2.5, 0.9), (-1.1, 1.5)] {
        let (sy, cy) = (yaw / 2.0).sin_cos();
        let (sp, cp) = (pitch / 2.0).sin_cos();
        // A turn about the vertical after one about the side.
        let turn = Quat { x: s(cy * sp), y: s(sy * cp), z: s(-sy * sp), w: s(cy * cp) };
        let side = right(turn);
        let back = forward(turn).negated();
        let top = turn.rotate(up());
        for (a, b, expected) in [
            (side, side, 1.0),
            (top, top, 1.0),
            (back, back, 1.0),
            (side, top, 0.0),
            (top, back, 0.0),
            (back, side, 0.0),
        ] {
            assert!((dot(a, b) - expected).abs() < 1e-6);
        }
        // Right-handed: the side across the top points back.
        assert!((dot(side.cross(top), back) - 1.0).abs() < 1e-6);
    }
}

#[test]
fn right_across_forward_is_up() {
    for parts in [[0.0f32, 0.0, 0.0, 1.0], [0.5, -0.5, 0.5, 0.5], [0.1, 0.7, -0.1, 0.7]] {
        let norm = parts.iter().map(|x| x * x).sum::<f32>().sqrt();
        let [x, y, z, w] = parts.map(|x| s(x / norm));
        let turn = Quat { x, y, z, w };
        let across = xyz(right(turn).cross(forward(turn)));
        let top = xyz(turn.rotate(up()));
        for i in 0..3 {
            assert!((across[i] - top[i]).abs() < 1e-6);
        }
    }
}

#[test]
fn validating_twice_moves_by_rounding_only() {
    let parts = [0.0f32, 1e-30, 3e-20, -0.3, 7.0, -123.456, 9.9e8, 3e18];
    for max in [0.0f32, 1e-25, 1e-19, 0.5, 100.0, 1e9, 1e18] {
        for x in parts {
            for y in parts {
                for z in parts {
                    let mut ctx = character();
                    ctx.cfg.max_speed = s(max);
                    ctx.velocity = v(x, y, z);
                    validate_velocity(&mut ctx);
                    let once = xyz(ctx.velocity).map(f64::from);
                    validate_velocity(&mut ctx);
                    let twice = xyz(ctx.velocity).map(f64::from);
                    for i in 0..3 {
                        let most = f64::from(max) / 32768.0 + 2f64.powi(-58);
                        assert!((twice[i] - once[i]).abs() <= most);
                    }
                }
            }
        }
    }
}

#[test]
fn a_faint_movement_asks_for_the_full_speed() {
    let mut ctx = character();
    // Their squares are the least numbers with all their digits.
    for (x, y) in [(0.0f32, 1.1e-19f32), (-1.1e-19, 0.0), (1e-19, -1e-19), (1e-10, 0.0)] {
        ctx.input.last_movement = Some(Vec2 { x: s(x), y: s(y) });
        assert!((length(calculate_wish_velocity(&ctx)) - 10.0).abs() < 1e-4);
    }
}
