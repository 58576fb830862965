#![allow(dead_code)]

use ahoy_kcc::clock::{span, Duration, Stopwatch, Time};
use ahoy_kcc::config::CharacterController;
use ahoy_kcc::context::{
    AccumulatedInput, BodyMeasures, CharacterControllerDerivedProps, CharacterControllerOutput,
    CharacterControllerState, CharacterLook, CtxItem, MoveHitData, WaterLevel,
};
use ahoy_kcc::scalar::{num, Scalar};
use ahoy_kcc::vector::{one, up, vec3, zero, Quat, Transform, Vec3};
use ahoy_kcc::world::{
    ApplyMovement, CarryPoint, CastMove, ColliderBounds, ColliderFriction, Contact, Overlap,
    Placement, Platform, Session, Slide, SlideOutput, World,
};
use std::cell::RefCell;
use std::collections::VecDeque;
use ahoy_kcc::climb::{
    calc_climb_factor, handle_climbdown, handle_crane_movement, handle_mantle_movement,
    update_crane_state, update_mantle_state,
};
use ahoy_kcc::context::{MantleOutput, MantleState, TouchingEntity};
use ahoy_kcc::ground::{calculate_platform_movement, set_grounded, update_grounded};
use ahoy_kcc::jump::{handle_bounce, handle_jump, handle_ledge_jump_dir, handle_tac};
use ahoy_kcc::ledge::{available_crane_height, available_ledge_height, available_mantle_height};
use ahoy_kcc::locomotion::{air_move, downhill, ground_move, step_move, water_move};
use ahoy_kcc::stance::{handle_crouching, update_sliding};
use ahoy_kcc::vector::Vec2;
use ahoy_kcc::world::Shape;

fn s(x: f32) -> Scalar {
    num(x.to_bits())
}

fn f(x: Scalar) -> f32 {
    f32::from_bits(x.bits())
}

fn v(x: f32, y: f32, z: f32) -> Vec3 {
    vec3(s(x), s(y), s(z))
}

fn xyz(a: Vec3) -> [f32; 3] {
    [f(a.x), f(a.y), f(a.z)]
}

fn identity() -> Quat {
    Quat { x: s(0.0), y: s(0.0), z: s(0.0), w: s(1.0) }
}

fn at(x: f32, y: f32, z: f32) -> Transform {
    Transform { translation: v(x, y, z), rotation: identity(), scale: one() }
}

fn clock(millis: u64) -> Stopwatch {
    Stopwatch { elapsed: millis_span(millis), paused: false }
}

fn millis_span(millis: u64) -> Duration {
    span(millis as u128 * 1_000_000)
}

/// Steps of an eighth of a second.
fn time() -> Time {
    Time { delta: millis_span(125), delta_secs: s(0.125) }
}

fn tuning() -> CharacterController {
    CharacterController {
        speed: s(10.0),
        max_speed: s(100.0),
        acceleration_hz: s(8.0),
        gravity: s(32.0),
        friction_hz: s(4.0),
        stop_speed: s(2.0),
        air_friction: s(0.0),
        ground_distance: s(0.125),
        min_walk_cos: s(0.75),
        unground_speed: s(9.0),
        skin_width: s(0.0625),
        step_size: s(0.5),
        min_step_ledge_space: s(0.25),
        step_down_detection_distance: s(0.2),
        air_control: s(16.0),
        max_carve_speed: s(50.0),
        carve_gain: s(0.5),
        water_gravity: s(2.0),
        water_slowdown: s(0.5),
        water_acceleration_hz: s(8.0),
        crouch_height: s(1.0),
        crouch_speed_scale: s(0.5),
        slide_friction_hz: s(1.0),
        slide_end_speed: s(3.0),
        slide_min_speed: s(6.0),
        slide_boost: s(4.0),
        slide_boost_max_speed: s(16.0),
        slide_cooldown: millis_span(500),
        jump_height: s(1.0),
        jump_input_buffer: millis_span(150),
        coyote_time: millis_span(100),
        jump_crane_chain_time: millis_span(50),
        land_momentum_window: millis_span(200),
        land_momentum_preservation: s(0.5),
        tac_input_buffer: millis_span(150),
        tac_cooldown: millis_span(300),
        max_tac_cos: s(0.5),
        tac_jump_factor: s(1.0),
        tac_power: s(2.0),
        bounce_input_buffer: millis_span(150),
        bounce_cooldown: millis_span(300),
        bounce_distance: s(0.5),
        bounce_restitution: s(0.5),
        bounce_min_speed: s(3.0),
        bounce_jump_factor: s(0.5),
        ledge_jump_factor: s(1.0),
        ledge_jump_power: s(1.5),
        crane_height: s(1.5),
        crane_speed: s(4.0),
        crane_input_buffer: millis_span(200),
        min_crane_ledge_space: s(0.5),
        min_crane_cos: s(0.5),
        mantle_height: s(2.0),
        mantle_speed: s(4.0),
        mantle_input_buffer: millis_span(150),
        min_mantle_cos: s(0.5),
        max_ledge_grab_distance: s(0.5),
        min_ledge_grab_space: v(0.25, 0.125, 0.25),
        climb_pull_up_height: s(0.25),
        climb_reverse_sin: s(0.5),
        climb_sensitivity: s(2.0),
    }
}

fn still() -> CharacterControllerState {
    CharacterControllerState {
        orientation: identity(),
        grounded: None,
        platform_velocity: zero(),
        platform_angular_velocity: zero(),
        crouching: false,
        sliding: false,
        crane_height_left: None,
        mantle: None,
        last_velocity: zero(),
        tac_velocity: s(0.0),
        land_speed: s(0.0),
        last_ground: clock(1_000),
        last_land: clock(1_000),
        last_slide: clock(1_000),
        last_bounce: clock(1_000),
        last_jump: clock(1_000),
        last_tac: clock(1_000),
        last_step_up: clock(1_000),
        last_step_down: clock(1_000),
    }
}

fn hands_off() -> AccumulatedInput {
    AccumulatedInput {
        last_movement: None,
        jumped: None,
        tac: None,
        bounced: None,
        craned: None,
        mantled: None,
        climbdown: None,
        crouched: false,
        swim_up: false,
    }
}

fn character() -> CtxItem {
    CtxItem {
        entity: 1,
        velocity: zero(),
        state: still(),
        derived: CharacterControllerDerivedProps {
            standing: BodyMeasures { radius: s(0.5), pos_to_head_dist: s(1.0) },
            crouching: BodyMeasures { radius: s(0.5), pos_to_head_dist: s(0.5) },
        },
        output: CharacterControllerOutput { touching_entities: vec![], mantle: None },
        transform: at(0.0, 1.0, 0.0),
        input: hands_off(),
        cfg: tuning(),
        water: WaterLevel::Dry,
        look: None,
        colliders: vec![11],
    }
}

fn hit(entity: u64, distance: f32, normal: Vec3) -> MoveHitData {
    MoveHitData {
        entity,
        distance: s(distance),
        point1: v(1.0, 2.0, 3.0),
        point2: zero(),
        normal1: normal,
        normal2: normal.negated(),
        collision_distance: s(distance + 0.0625),
    }
}

fn floor() -> MoveHitData {
    hit(5, 0.0625, up())
}

/// Surroundings that reply from a script, and remember what they were asked. Where the script ends,
/// nothing is in the way.
#[derive(Default)]
struct Script {
    casts: RefCell<VecDeque<Option<MoveHitData>>>,
    cast_queries: RefCell<Vec<CastMove>>,
    offsets: RefCell<VecDeque<Vec3>>,
    slides: RefCell<VecDeque<SlideOutput>>,
    slide_queries: RefCell<Vec<Slide>>,
    contacts: Vec<Contact>,
    overlaps: Vec<Overlap>,
    overlap_queries: RefCell<Vec<Placement>>,
    poses: Vec<(u64, (Vec3, Quat))>,
    platforms: Vec<(u64, Platform)>,
    collider_frictions: Vec<(u64, ColliderFriction)>,
    body_frictions: Vec<(u64, Scalar)>,
    bounds: Vec<(u64, ColliderBounds)>,
    carried: Option<Vec3>,
    carry_queries: RefCell<Vec<CarryPoint>>,
    apply_queries: RefCell<Vec<ApplyMovement>>,
    angle: Option<Scalar>,
    turns: RefCell<Vec<Scalar>>,
}

fn find<T: Copy>(list: &[(u64, T)], key: u64) -> Option<T> {
    list.iter().find(|(k, _)| *k == key).map(|(_, value)| *value)
}

impl World for Script {
    fn cast_move(&self, query: CastMove) -> Option<MoveHitData> {
        self.cast_queries.borrow_mut().push(query);
        self.casts.borrow_mut().pop_front().unwrap_or(None)
    }

    fn depenetrate(&self, _placement: Placement) -> Vec3 {
        self.offsets.borrow_mut().pop_front().unwrap_or(zero())
    }

    fn slide(&self, query: Slide) -> SlideOutput {
        self.slide_queries.borrow_mut().push(query);
        let free = SlideOutput {
            position: query.placement.position
                + query.velocity * s(query.delta.nanos() as f32 / 1e9),
            projected_velocity: query.velocity,
            touched: vec![],
        };
        self.slides.borrow_mut().pop_front().unwrap_or(free)
    }

    fn contacts(&self, _placement: Placement, _reach: Scalar) -> Vec<Contact> {
        self.contacts.clone()
    }

    fn overlaps(&self, placement: Placement) -> Vec<Overlap> {
        self.overlap_queries.borrow_mut().push(placement);
        self.overlaps.clone()
    }

    fn pose(&self, entity: u64) -> Option<(Vec3, Quat)> {
        find(&self.poses, entity)
    }

    fn platform(&self, entity: u64) -> Option<Platform> {
        find(&self.platforms, entity)
    }

    fn collider_friction(&self, entity: u64) -> Option<ColliderFriction> {
        find(&self.collider_frictions, entity)
    }

    fn body_friction(&self, body: u64) -> Option<Scalar> {
        find(&self.body_frictions, body)
    }

    fn bounds(&self, entity: u64) -> Option<ColliderBounds> {
        find(&self.bounds, entity)
    }

    fn seconds(&self, duration: Duration) -> Scalar {
        s(duration.nanos() as f32 / 1e9)
    }

    fn angle_between(&self, _from: Vec3, _to: Vec3) -> Scalar {
        self.angle.unwrap_or(s(0.0))
    }

    fn carry_point(&self, query: CarryPoint) -> Vec3 {
        self.carry_queries.borrow_mut().push(query);
        self.carried.unwrap_or(query.point + (query.to - query.from))
    }

    fn apply_movement(&self, query: ApplyMovement) -> Transform {
        self.apply_queries.borrow_mut().push(query);
        Transform {
            translation: query.current.translation
                + (query.moved.translation - query.original.translation),
            rotation: query.current.rotation,
            scale: query.current.scale,
        }
    }

    fn look_rotation(&self, look: CharacterLook) -> Quat {
        let half = f(look.yaw) / 2.0;
        Quat { x: s(0.0), y: s(half.sin()), z: s(0.0), w: s(half.cos()) }
    }

    fn turn_look(&self, look: CharacterLook, angle: Scalar) -> CharacterLook {
        self.turns.borrow_mut().push(angle);
        CharacterLook { yaw: look.yaw + angle, pitch: look.pitch }
    }
}

fn script(casts: Vec<Option<MoveHitData>>) -> Script {
    Script { casts: RefCell::new(casts.into()), ..Script::default() }
}

fn movements(world: &Script) -> Vec<[f32; 3]> {
    world.cast_queries.borrow().iter().map(|q| xyz(q.movement)).collect()
}

const FORWARD: [f32; 3] = [10.0, 0.0, 0.0];

fn wish() -> Vec3 {
    v(FORWARD[0], FORWARD[1], FORWARD[2])
}

fn wall() -> Vec3 {
    v(-1.0, 0.0, 0.0)
}

fn near(a: f32, b: f32) -> bool {
    (a - b).abs() < 1e-4
}

#[test]
fn landing_remembers_the_speed() {
    let world = Script::default();
    let mut session = Session::new(&world);
    let mut ctx = character();
    ctx.velocity = v(3.0, -5.0, 4.0);
    ctx.state.mantle = Some(MantleState { height_left: s(1.0) });
    set_grounded(Some(floor()), &time(), &mut session, &mut ctx, &at(0.0, 1.0, 0.0));
    assert_eq!(xyz(ctx.velocity), [3.0, 0.0, 4.0]);
    assert_eq!(f(ctx.state.land_speed), 5.0);
    assert_eq!(ctx.state.last_land.elapsed, span(0));
    assert_eq!(ctx.state.grounded, Some(floor()));
    assert!(ctx.state.mantle.is_none());
    // Staying on the ground is no landing.
    ctx.state.last_land = clock(70);
    ctx.velocity = v(1.0, 0.0, 0.0);
    set_grounded(Some(floor()), &time(), &mut session, &mut ctx, &at(0.0, 1.0, 0.0));
    assert_eq!(f(ctx.state.land_speed), 5.0);
    assert_eq!(ctx.state.last_land, clock(70));
    ctx.velocity = v(1.0, 2.0, 3.0);
    set_grounded(None, &time(), &mut session, &mut ctx, &at(0.0, 1.0, 0.0));
    assert!(ctx.state.grounded.is_none());
    assert_eq!(xyz(ctx.velocity), [1.0, 2.0, 3.0]);
}

#[test]
fn moving_ground_carries() {
    let platform = Platform {
        center_of_mass: Some(v(1.0, 0.0, 0.0)),
        linear_velocity: Some(v(2.0, 0.0, 0.0)),
        angular_velocity: Some(v(0.0, 1.0, 0.0)),
        position: v(10.0, 0.0, 0.0),
        rotation: identity(),
    };
    let world = Script { platforms: vec![(5, platform)], ..Script::default() };
    let mut session = Session::new(&world);
    let mut ctx = character();
    set_grounded(Some(floor()), &time(), &mut session, &mut ctx, &at(7.0, 9.0, 8.0));
    let asked = world.carry_queries.borrow()[0];
    assert_eq!(xyz(asked.from), [11.0, 0.0, 0.0]);
    assert_eq!(xyz(asked.to), [11.25, 0.0, 0.0]);
    assert_eq!(xyz(asked.spin), [0.0, 0.125, 0.0]);
    // The point under the body at the height of the ground.
    assert_eq!(xyz(asked.point), [7.0, 2.0, 8.0]);
    assert_eq!(xyz(ctx.state.platform_velocity), [2.0, 0.0, 0.0]);
    assert_eq!(xyz(ctx.state.platform_angular_velocity), [0.0, 1.0, 0.0]);
    // Leaving it takes its velocity once more.
    ctx.state.platform_velocity = zero();
    set_grounded(None, &time(), &mut session, &mut ctx, &at(7.0, 9.0, 8.0));
    assert_eq!(xyz(ctx.state.platform_velocity), [2.0, 0.0, 0.0]);
    // Ground that is not known leaves what was.
    let unknown = hit(6, 0.0, up());
    ctx.state.platform_velocity = v(1.0, 0.0, 0.0);
    set_grounded(Some(unknown), &time(), &mut session, &mut ctx, &at(7.0, 9.0, 8.0));
    assert_eq!(xyz(ctx.state.platform_velocity), [1.0, 0.0, 0.0]);
    let bare = Platform {
        center_of_mass: None,
        linear_velocity: None,
        angular_velocity: None,
        ..platform
    };
    calculate_platform_movement(zero(), &bare, &time(), &mut session, &mut ctx, &at(0.0, 0.0, 0.0));
    assert_eq!(xyz(ctx.state.platform_velocity), [0.0, 0.0, 0.0]);
}

#[test]
fn ground_is_looked_for() {
    let run = |prepare: &dyn Fn(&mut CtxItem), casts: Vec<Option<MoveHitData>>| {
        let world = script(casts);
        let mut session = Session::new(&world);
        let mut ctx = character();
        prepare(&mut ctx);
        update_grounded(&time(), &mut session, &mut ctx, &at(0.0, 1.0, 0.0));
        (ctx.state.grounded.is_some(), movements(&world))
    };
    let (found, asked) = run(&|_| {}, vec![Some(floor())]);
    assert!(found);
    assert_eq!(asked, vec![[0.0, -0.125, 0.0]]);
    // Too steep.
    assert!(!run(&|_| {}, vec![Some(hit(5, 0.0, v(0.8, 0.6, 0.0)))]).0);
    assert!(!run(&|_| {}, vec![None]).0);
    // Rising fast, or in water: nothing is asked.
    let rising = |ctx: &mut CtxItem| ctx.velocity = v(0.0, 10.0, 0.0);
    assert_eq!(run(&rising, vec![Some(floor())]), (false, vec![]));
    let wet = |ctx: &mut CtxItem| ctx.water = WaterLevel::Center;
    assert_eq!(run(&wet, vec![Some(floor())]), (false, vec![]));
    // Rising along with the ground.
    let lifted = |ctx: &mut CtxItem| {
        ctx.velocity = v(0.0, 10.0, 0.0);
        ctx.state.grounded = Some(floor());
        ctx.state.platform_velocity = v(0.0, 5.0, 0.0);
    };
    assert!(run(&lifted, vec![Some(floor())]).0);
    // Sinking ground is looked for farther down.
    let sinking = |ctx: &mut CtxItem| ctx.state.platform_velocity = v(0.0, -8.0, 0.0);
    assert_eq!(run(&sinking, vec![Some(floor())]).1, vec![[0.0, -1.125, 0.0]]);
}

fn slide_to(x: f32, y: f32, velocity: Vec3, touched: u64) -> SlideOutput {
    SlideOutput {
        position: v(x, y, 0.0),
        projected_velocity: velocity,
        touched: vec![TouchingEntity {
            entity: touched,
            distance: s(0.0),
            point: zero(),
            normal: wall(),
            position: zero(),
            velocity: zero(),
            collision_distance: s(0.0),
        }],
    }
}

/// Steps from the origin, where the direct slide ends at x = 0.5 and the one from the top of the
/// step at `far`.
fn try_step(casts: Vec<Option<MoveHitData>>, far: f32) -> (CtxItem, Transform, Vec<[f32; 3]>) {
    let world = script(casts);
    world.slides.borrow_mut().push_back(slide_to(0.5, 0.0, v(0.0, -1.0, 0.0), 21));
    world.slides.borrow_mut().push_back(slide_to(far, 0.5, v(8.0, 3.0, 0.0), 22));
    let mut session = Session::new(&world);
    let mut ctx = character();
    ctx.velocity = v(8.0, 0.0, 0.0);
    let mut here = at(0.0, 0.0, 0.0);
    step_move(&time(), &mut session, &mut ctx, &mut here);
    let asked = movements(&world);
    (ctx, here, asked)
}

#[test]
fn a_step_that_leads_farther_is_taken() {
    let (ctx, here, asked) = try_step(vec![None, None, Some(hit(5, 0.25, up()))], 2.0);
    assert_eq!(xyz(here.translation), [2.0, 0.25, 0.0]);
    assert_eq!(xyz(ctx.velocity), [8.0, -1.0, 0.0]);
    assert_eq!(ctx.state.last_step_up.elapsed, span(0));
    let touched: Vec<u64> = ctx.output.touching_entities.iter().map(|t| t.entity).collect();
    assert_eq!(touched, vec![22]);
    assert_eq!(asked, vec![[0.0, 0.5, 0.0], [0.25, 0.0, 0.0], [0.0, -0.5, 0.0]]);
    // A ceiling lowers the step.
    let (_, here, _) = try_step(
        vec![Some(hit(5, 0.25, v(0.0, -1.0, 0.0))), None, Some(hit(5, 0.25, up()))],
        2.0,
    );
    assert_eq!(xyz(here.translation), [2.0, 0.25, 0.0]);
}

#[test]
fn a_step_that_does_not_work_leaves_the_direct_path() {
    let cases: Vec<(Vec<Option<MoveHitData>>, f32)> = vec![
        // No space on top.
        (vec![None, Some(hit(5, 0.0, wall()))], 2.0),
        // Nothing to stand on.
        (vec![None, None, None], 2.0),
        // Too steep to stand on.
        (vec![None, None, Some(hit(5, 0.25, v(0.8, 0.6, 0.0)))], 2.0),
        // No farther than the direct path.
        (vec![None, None, Some(hit(5, 0.25, up()))], 0.5),
    ];
    for (casts, far) in cases {
        let (ctx, here, _) = try_step(casts, far);
        assert_eq!(xyz(here.translation), [0.5, 0.0, 0.0]);
        assert_eq!(xyz(ctx.velocity), [0.0, -1.0, 0.0]);
        assert_eq!(ctx.state.last_step_up, clock(1_000));
        let touched: Vec<u64> = ctx.output.touching_entities.iter().map(|t| t.entity).collect();
        assert_eq!(touched, vec![21]);
    }
}

#[test]
fn walking_is_free_or_steps() {
    let world = script(vec![None]);
    let mut session = Session::new(&world);
    let mut ctx = character();
    ctx.state.grounded = Some(floor());
    ctx.state.platform_velocity = v(0.0, 0.0, 2.0);
    let mut here = at(0.0, 1.0, 0.0);
    ground_move(wish(), &time(), &mut session, &mut ctx, &mut here);
    assert_eq!(xyz(here.translation), [1.25, 1.0, 0.25]);
    assert_eq!(xyz(ctx.velocity), FORWARD);
    assert_eq!(movements(&world)[0], [1.25, 0.0, 0.25]);
    assert!(world.slide_queries.borrow().is_empty());
    // Something ahead: slides.
    let world = script(vec![Some(hit(5, 0.5, wall()))]);
    let mut session = Session::new(&world);
    let mut here = at(0.0, 1.0, 0.0);
    ground_move(wish(), &time(), &mut session, &mut ctx, &mut here);
    assert!(!world.slide_queries.borrow().is_empty());
}

#[test]
fn standing_still_stays() {
    let world = Script::default();
    let mut session = Session::new(&world);
    let mut ctx = character();
    ctx.velocity = v(0.001, 5.0, 0.0);
    let mut here = at(0.0, 1.0, 0.0);
    ground_move(zero(), &time(), &mut session, &mut ctx, &mut here);
    assert_eq!(xyz(ctx.velocity), [0.0, 0.0, 0.0]);
    assert_eq!(xyz(here.translation), [0.0, 1.0, 0.0]);
    assert!(movements(&world).is_empty());
}

#[test]
fn slopes_pull_slides() {
    assert_eq!(xyz(downhill(s(32.0), up())), [0.0, 0.0, 0.0]);
    let world = Script::default();
    let mut session = Session::new(&world);
    let mut ctx = character();
    ctx.state.sliding = true;
    ctx.state.grounded = Some(hit(5, 0.0, v(0.6, 0.8, 0.0)));
    ctx.velocity = v(4.0, 0.0, 0.0);
    let mut here = at(0.0, 1.0, 0.0);
    ground_move(zero(), &time(), &mut session, &mut ctx, &mut here);
    // The pull of 32 * 0.6 * 0.8 for an eighth of a second.
    assert!(near(f(ctx.velocity.x), 4.0 + 15.36 / 8.0));
}

#[test]
fn flying_and_swimming() {
    let world = Script::default();
    let mut session = Session::new(&world);
    let mut ctx = character();
    ctx.velocity = v(0.0, -8.0, 0.0);
    let mut here = at(0.0, 5.0, 0.0);
    air_move(zero(), &time(), &mut session, &mut ctx, &mut here);
    assert_eq!(xyz(here.translation), [0.0, 4.0, 0.0]);
    assert_eq!(xyz(ctx.velocity), [0.0, -8.0, 0.0]);
    // Without a wish a swimmer sinks: 2 * 0.5 downward.
    let mut ctx = character();
    ctx.water = WaterLevel::Head;
    water_move(zero(), &time(), &mut session, &mut ctx, &mut here);
    assert_eq!(xyz(ctx.velocity), [0.0, -1.0, 0.0]);
    // Swimming up spends the wish for it, and both together are no faster than one.
    let mut ctx = character();
    ctx.water = WaterLevel::Head;
    ctx.input.swim_up = true;
    water_move(v(10.0, 0.0, 0.0), &time(), &mut session, &mut ctx, &mut here);
    assert!(!ctx.input.swim_up);
    let speed = (f(ctx.velocity.x).powi(2) + f(ctx.velocity.y).powi(2)).sqrt();
    assert!(near(speed, 5.0));
    assert!(near(f(ctx.velocity.x), f(ctx.velocity.y)));
}

fn ledge_casts() -> Vec<Option<MoveHitData>> {
    vec![
        Some(hit(7, 0.25, wall())),
        None,
        Some(hit(8, 0.5, up())),
        None,
        Some(hit(8, 0.75, up())),
        Some(hit(7, 0.25, wall())),
    ]
}

fn probe_ledge(casts: Vec<Option<MoveHitData>>) -> (Option<f32>, Vec<[f32; 3]>) {
    let world = script(casts);
    let mut session = Session::new(&world);
    let mut ctx = character();
    ctx.velocity = v(1.0, -2.0, 3.0);
    let mut here = at(0.0, 1.0, 0.0);
    let found = available_crane_height(wish(), &time(), &mut session, &mut ctx, &mut here);
    // Nothing has moved, whatever was found.
    assert_eq!(xyz(ctx.velocity), [1.0, -2.0, 3.0]);
    assert_eq!(here, at(0.0, 1.0, 0.0));
    assert_eq!(ctx.state, still());
    assert_eq!(ctx.input, hands_off());
    (found.map(f), movements(&world))
}

#[test]
fn a_ledge_is_found() {
    let (found, asked) = probe_ledge(ledge_casts());
    assert_eq!(found, Some(1.0));
    assert_eq!(
        asked,
        vec![
            [0.5, 0.0, 0.0],
            [0.0, 1.5, 0.0],
            [0.0, -1.5, 0.0],
            [0.5, 0.0, 0.0],
            [0.0, -1.0, 0.0],
            [0.5, 0.25, 0.0],
        ]
    );
}

#[test]
fn a_ledge_needs_every_part() {
    let with = |i: usize, cast: Option<MoveHitData>| {
        let mut casts = ledge_casts();
        casts[i] = cast;
        probe_ledge(casts).0
    };
    // No wall, or one that is not faced.
    assert_eq!(with(0, None), None);
    assert_eq!(with(0, Some(hit(7, 0.25, v(0.0, 0.0, 1.0)))), None);
    // A ceiling lowers what can be reached.
    assert_eq!(with(1, Some(hit(9, 1.25, v(0.0, -1.0, 0.0)))), Some(0.75));
    // Nothing behind the wall, no space there, nothing to land on, or too steep.
    assert_eq!(with(2, None), None);
    assert_eq!(with(3, Some(hit(9, 0.0, wall()))), None);
    assert_eq!(with(4, None), None);
    assert_eq!(with(4, Some(hit(8, 0.75, v(0.8, 0.6, 0.0)))), None);
    // A straight way: just a slope.
    assert_eq!(with(5, None), None);
}

#[test]
fn a_ledge_is_looked_for_along_the_velocity_without_a_wish() {
    let world = script(vec![None]);
    let mut session = Session::new(&world);
    let mut ctx = character();
    let mut here = at(0.0, 1.0, 0.0);
    assert!(available_ledge_height(
        zero(), s(0.5), s(0.5), s(1.5), &time(), &mut session, &mut ctx, &mut here
    )
    .is_none());
    assert!(movements(&world).is_empty());
    ctx.velocity = v(0.0, -9.0, -2.0);
    assert!(available_ledge_height(
        zero(), s(0.5), s(0.5), s(1.5), &time(), &mut session, &mut ctx, &mut here
    )
    .is_none());
    assert_eq!(movements(&world), vec![[0.0, 0.0, -0.5]]);
}

#[test]
fn a_crane_starts_once_and_spends_the_presses() {
    let world = script(ledge_casts());
    let mut session = Session::new(&world);
    let mut ctx = character();
    let press = Some(clock(100));
    ctx.input.craned = press;
    ctx.input.jumped = press;
    ctx.input.mantled = press;
    ctx.input.tac = press;
    ctx.input.bounced = press;
    ctx.state.mantle = Some(MantleState { height_left: s(1.0) });
    let mut here = at(0.0, 1.0, 0.0);
    update_crane_state(wish(), &time(), &mut session, &mut ctx, &mut here);
    assert_eq!(ctx.state.crane_height_left.map(f), Some(1.0));
    assert!(ctx.state.mantle.is_none());
    assert!(ctx.input.craned.is_none() && ctx.input.jumped.is_none());
    assert!(ctx.input.mantled.is_none() && ctx.input.tac.is_none());
    assert_eq!(ctx.input.bounced, press);
}

#[test]
fn a_crane_needs_a_fresh_press_and_a_ledge() {
    let run = |press: Option<Stopwatch>, casts: Vec<Option<MoveHitData>>| {
        let world = script(casts);
        let mut session = Session::new(&world);
        let mut ctx = character();
        ctx.input.craned = press;
        ctx.state.crane_height_left = Some(s(0.5));
        let mut here = at(0.0, 1.0, 0.0);
        update_crane_state(wish(), &time(), &mut session, &mut ctx, &mut here);
        (ctx.state.crane_height_left.map(f), ctx.input.craned.is_some())
    };
    assert_eq!(run(None, ledge_casts()), (Some(0.5), false));
    assert_eq!(run(Some(clock(201)), ledge_casts()), (Some(0.5), true));
    assert_eq!(run(Some(clock(200)), ledge_casts()), (Some(1.0), false));
    assert_eq!(run(Some(clock(0)), vec![None]), (None, true));
}

fn crane(left: f32, wish: Vec3, casts: Vec<Option<MoveHitData>>) -> (CtxItem, Transform) {
    let world = script(casts);
    let mut session = Session::new(&world);
    let mut ctx = character();
    ctx.state.crane_height_left = Some(s(left));
    let mut here = at(0.0, 1.0, 0.0);
    handle_crane_movement(wish, &time(), &mut session, &mut ctx, &mut here);
    (ctx, here)
}

#[test]
fn a_crane_rises_and_goes_over() {
    let facing = Some(hit(7, 0.25, wall()));
    // Half a unit per step; still a wall ahead.
    let (ctx, here) = crane(1.0, wish(), vec![facing, None, facing]);
    assert_eq!(xyz(here.translation), [0.0, 1.5, 0.0]);
    assert_eq!(ctx.state.crane_height_left.map(f), Some(0.5));
    assert_eq!(ctx.state.last_step_up.elapsed, span(0));
    assert_eq!(xyz(ctx.velocity), FORWARD);
    // Free ahead: over.
    let (ctx, here) = crane(1.0, wish(), vec![facing, None, None]);
    assert_eq!(xyz(here.translation), [1.25, 1.5, 0.0]);
    assert!(ctx.state.crane_height_left.is_none());
    // All the way up, with and without something ahead.
    let (ctx, here) = crane(0.25, wish(), vec![facing, None, None]);
    assert_eq!(xyz(here.translation), [1.25, 1.25, 0.0]);
    assert!(ctx.state.crane_height_left.is_none());
    let (ctx, here) = crane(0.25, wish(), vec![facing, None, facing]);
    assert_eq!(xyz(here.translation), [0.0, 1.25, 0.0]);
    assert!(ctx.state.crane_height_left.is_none());
    // A ceiling ends the rise.
    let ceiling = Some(hit(9, 0.125, v(0.0, -1.0, 0.0)));
    let (ctx, here) = crane(1.0, wish(), vec![facing, ceiling, facing]);
    assert_eq!(xyz(here.translation), [0.0, 1.125, 0.0]);
    assert!(ctx.state.crane_height_left.is_none());
}

#[test]
fn a_crane_gives_up() {
    let (ctx, here) = crane(1.0, wish(), vec![None]);
    assert!(ctx.state.crane_height_left.is_none());
    assert_eq!(here, at(0.0, 1.0, 0.0));
    let (ctx, _) = crane(1.0, wish(), vec![Some(hit(7, 0.25, v(0.0, 0.0, 1.0)))]);
    assert!(ctx.state.crane_height_left.is_none());
    let (ctx, _) = crane(1.0, zero(), vec![Some(hit(7, 0.25, wall()))]);
    assert!(ctx.state.crane_height_left.is_none());
    // Without a crane nothing happens.
    let world = Script::default();
    let mut session = Session::new(&world);
    let mut ctx = character();
    ctx.velocity = v(1.0, 2.0, 3.0);
    let mut here = at(0.0, 1.0, 0.0);
    handle_crane_movement(wish(), &time(), &mut session, &mut ctx, &mut here);
    assert_eq!(xyz(ctx.velocity), [1.0, 2.0, 3.0]);
}

fn mantle_casts() -> Vec<Option<MoveHitData>> {
    vec![
        Some(hit(7, 0.25, wall())),
        None,
        Some(hit(8, 0.5, up())),
        None,
        Some(hit(8, 0.75, up())),
    ]
}

fn probe_mantle(casts: Vec<Option<MoveHitData>>) -> Option<(f32, MantleOutput)> {
    let world = script(casts);
    let mut session = Session::new(&world);
    let mut ctx = character();
    ctx.velocity = v(1.0, -2.0, 3.0);
    let mut here = at(0.0, 1.0, 0.0);
    let found = available_mantle_height(wish(), &time(), &mut session, &mut ctx, &mut here);
    assert_eq!(xyz(ctx.velocity), [1.0, -2.0, 3.0]);
    assert_eq!(here, at(0.0, 1.0, 0.0));
    assert_eq!(ctx.state, still());
    found.map(|(state, output)| (f(state.height_left), output))
}

#[test]
fn a_mantle_is_found_by_hand() {
    let (height, output) = probe_mantle(mantle_casts()).unwrap();
    // 1.5 up, less the way to the head, plus the pull-up.
    assert_eq!(height, 0.75);
    assert_eq!(output.wall_entity, 8);
    assert_eq!(xyz(output.wall_normal), xyz(wall()));
    assert_eq!(xyz(output.ledge_position), [1.0, 2.0, 3.0]);
    let world = script(mantle_casts());
    let mut session = Session::new(&world);
    let mut ctx = character();
    let mut here = at(0.0, 1.0, 0.0);
    available_mantle_height(wish(), &time(), &mut session, &mut ctx, &mut here);
    let asked = world.cast_queries.borrow();
    let shapes: Vec<Shape> = asked.iter().map(|q| q.placement.shape).collect();
    assert_eq!(
        shapes,
        vec![Shape::Standing, Shape::Hands, Shape::Hands, Shape::Hands, Shape::Hands]
    );
    // The hands reach the radius, the skin and half their depth past the center.
    assert_eq!(xyz(asked[3].movement), [0.8125, 0.0, 0.0]);
    assert_eq!(xyz(asked[2].placement.position), [1.0625, 3.0, 0.0]);
}

#[test]
fn a_mantle_needs_every_part() {
    let with = |i: usize, cast: Option<MoveHitData>| {
        let mut casts = mantle_casts();
        casts[i] = cast;
        probe_mantle(casts).map(|(height, _)| height)
    };
    assert_eq!(with(0, None), None);
    assert_eq!(with(0, Some(hit(7, 0.25, v(0.0, 0.0, 1.0)))), None);
    assert_eq!(with(2, None), None);
    assert_eq!(with(3, Some(hit(9, 0.0, wall()))), None);
    assert_eq!(with(4, None), None);
    assert_eq!(with(4, Some(hit(8, 0.75, v(0.8, 0.6, 0.0)))), None);
    // Too low to be worth it.
    assert_eq!(with(2, Some(hit(8, 1.5, up()))), None);
    assert_eq!(with(2, Some(hit(8, 1.25, up()))), Some(0.0));
}

#[test]
fn a_mantle_starts_after_a_press() {
    let run = |prepare: &dyn Fn(&mut CtxItem)| {
        let world = script(mantle_casts());
        let mut session = Session::new(&world);
        let mut ctx = character();
        ctx.input.mantled = Some(clock(100));
        ctx.input.craned = Some(clock(500));
        ctx.input.jumped = Some(clock(0));
        prepare(&mut ctx);
        let mut here = at(0.0, 1.0, 0.0);
        update_mantle_state(wish(), &time(), &mut session, &mut ctx, &mut here);
        ctx
    };
    let ctx = run(&|_| {});
    assert_eq!(ctx.state.mantle.map(|m| f(m.height_left)), Some(0.75));
    assert!(ctx.output.mantle.is_some());
    assert!(ctx.input.craned.is_none() && ctx.input.mantled.is_none());
    assert!(ctx.input.jumped.is_none());
    // Not without a fresh press.
    assert!(run(&|ctx| ctx.input.mantled = None).state.mantle.is_none());
    assert!(run(&|ctx| ctx.input.mantled = Some(clock(151))).state.mantle.is_none());
    // A crane goes before, and a mantle goes on.
    let ctx = run(&|ctx| {
        ctx.state.crane_height_left = Some(s(1.0));
        ctx.state.mantle = Some(MantleState { height_left: s(9.0) });
    });
    assert!(ctx.state.mantle.is_none());
    let ctx = run(&|ctx| ctx.state.mantle = Some(MantleState { height_left: s(9.0) }));
    assert_eq!(ctx.state.mantle.map(|m| f(m.height_left)), Some(9.0));
    assert!(ctx.input.mantled.is_some());
}

fn touching_wall() -> Vec<Contact> {
    vec![Contact { point: zero(), penetration: s(0.0), normal: wall() }]
}

#[test]
fn a_mantle_climbs() {
    let world = Script { contacts: touching_wall(), ..script(vec![Some(hit(7, 0.25, wall()))]) };
    let mut session = Session::new(&world);
    let mut ctx = character();
    ctx.velocity = v(9.0, 9.0, 9.0);
    ctx.state.mantle = Some(MantleState { height_left: s(1.0) });
    ctx.input.last_movement = Some(Vec2 { x: s(0.0), y: s(1.0) });
    let mut here = at(0.0, 1.0, 0.0);
    handle_mantle_movement(v(0.0, 0.0, -10.0), &time(), &mut session, &mut ctx, &mut here);
    assert_eq!(xyz(here.translation), [0.0, 1.5, 0.0]);
    assert_eq!(xyz(ctx.velocity), [0.0, 4.0, 0.0]);
    assert_eq!(ctx.state.mantle.map(|m| f(m.height_left)), Some(0.5));
    assert_eq!(ctx.state.last_step_up.elapsed, span(0));
    assert_eq!(ctx.state.last_step_down, clock(1_000));
    let output = ctx.output.mantle.unwrap();
    assert_eq!((output.wall_entity, xyz(output.wall_normal)), (7, xyz(wall())));
    // Something above shortens the climb.
    let world = Script {
        contacts: touching_wall(),
        ..script(vec![Some(hit(7, 0.25, wall())), Some(hit(9, 0.125, v(0.0, -1.0, 0.0)))])
    };
    let mut session = Session::new(&world);
    handle_mantle_movement(v(0.0, 0.0, -10.0), &time(), &mut session, &mut ctx, &mut here);
    assert_eq!(ctx.state.mantle.map(|m| f(m.height_left)), Some(0.375));
}

#[test]
fn a_mantle_ends_without_its_wall() {
    let run = |contacts: Vec<Contact>, casts: Vec<Option<MoveHitData>>| {
        let world = Script { contacts, ..script(casts) };
        let mut session = Session::new(&world);
        let mut ctx = character();
        ctx.velocity = v(9.0, 9.0, 9.0);
        ctx.state.mantle = Some(MantleState { height_left: s(1.0) });
        let mut here = at(0.0, 1.0, 0.0);
        handle_mantle_movement(zero(), &time(), &mut session, &mut ctx, &mut here);
        assert_eq!(xyz(ctx.velocity), [0.0, 0.0, 0.0]);
        ctx.state.mantle.is_some()
    };
    assert!(!run(vec![], vec![]));
    assert!(!run(touching_wall(), vec![None]));
    assert!(run(touching_wall(), vec![Some(hit(7, 0.25, wall()))]));
}

#[test]
fn climbing_follows_the_look() {
    let mut ctx = character();
    let ahead = v(0.0, 0.0, -10.0);
    assert_eq!(f(calc_climb_factor(&ctx, zero())), 0.0);
    ctx.input.last_movement = Some(Vec2 { x: s(0.0), y: s(1.0) });
    assert_eq!(f(calc_climb_factor(&ctx, ahead)), 1.0);
    ctx.input.last_movement = Some(Vec2 { x: s(0.0), y: s(-1.0) });
    assert_eq!(f(calc_climb_factor(&ctx, ahead)), -1.0);
    // Looking straight down.
    let half = 45.0f32.to_radians();
    ctx.state.orientation =
        Quat { x: s(-half.sin()), y: s(0.0), z: s(0.0), w: s(half.cos()) };
    ctx.input.last_movement = Some(Vec2 { x: s(0.0), y: s(1.0) });
    assert!(near(f(calc_climb_factor(&ctx, ahead)), -1.0));
    ctx.cfg.climb_sensitivity = s(1.0);
    assert!(near(f(calc_climb_factor(&ctx, ahead)), -0.5));
}

#[test]
fn a_mantle_descends_no_farther_than_the_hands_hold() {
    let world = Script { contacts: touching_wall(), ..script(vec![Some(hit(7, 0.25, wall()))]) };
    let mut session = Session::new(&world);
    let mut ctx = character();
    ctx.state.mantle = Some(MantleState { height_left: s(1.625) });
    ctx.input.last_movement = Some(Vec2 { x: s(0.0), y: s(-1.0) });
    let mut here = at(0.0, 1.0, 0.0);
    handle_mantle_movement(v(0.0, 0.0, 10.0), &time(), &mut session, &mut ctx, &mut here);
    // 2 - 0.25 may be left at most.
    assert_eq!(ctx.state.mantle.map(|m| f(m.height_left)), Some(1.75));
    assert_eq!(xyz(here.translation), [0.0, 0.875, 0.0]);
    assert_eq!(ctx.state.last_step_down.elapsed, span(0));
}

#[test]
fn climbing_down_takes_hold_of_the_wall_below() {
    let run = |prepare: &dyn Fn(&mut CtxItem), below: Option<MoveHitData>, found: bool| {
        let mut casts = vec![below];
        if found {
            casts.extend(mantle_casts());
        }
        let world = script(casts);
        let mut session = Session::new(&world);
        let mut ctx = character();
        ctx.input.last_movement = Some(Vec2 { x: s(0.0), y: s(-1.0) });
        ctx.input.climbdown = Some(clock(100));
        ctx.input.jumped = Some(clock(0));
        prepare(&mut ctx);
        let mut here = at(0.0, 1.0, 0.0);
        handle_climbdown(v(-10.0, 0.0, 0.0), &time(), &mut session, &mut ctx, &mut here);
        (ctx, here, movements(&world))
    };
    let (ctx, here, asked) = run(&|_| {}, None, true);
    assert_eq!(xyz(here.translation), [0.0, -0.5, 0.0]);
    assert!(ctx.state.mantle.is_some() && ctx.output.mantle.is_some());
    assert!(ctx.input.climbdown.is_none() && ctx.input.jumped.is_none());
    assert_eq!(&asked[..2], &[[0.0, -1.5, 0.0], [0.5, 0.0, 0.0]]);
    // No ledge: back up.
    let (ctx, here, _) = run(&|_| {}, None, false);
    assert_eq!(here, at(0.0, 1.0, 0.0));
    assert!(ctx.state.mantle.is_none() && ctx.input.climbdown.is_some());
    // Ground below, or no reason to climb down.
    let refused: Vec<&dyn Fn(&mut CtxItem)> = vec![
        &|ctx| ctx.state.grounded = Some(floor()),
        &|ctx| ctx.input.last_movement = None,
        &|ctx| ctx.input.last_movement = Some(Vec2 { x: s(1.0), y: s(0.0) }),
        &|ctx| ctx.input.climbdown = None,
        &|ctx| ctx.input.climbdown = Some(clock(151)),
    ];
    for prepare in refused {
        let (ctx, here, asked) = run(prepare, None, true);
        assert!(ctx.state.mantle.is_none());
        assert_eq!(here, at(0.0, 1.0, 0.0));
        assert!(asked.is_empty());
    }
    let (ctx, here, _) = run(&|_| {}, Some(floor()), true);
    assert!(ctx.state.mantle.is_none());
    assert_eq!(here, at(0.0, 1.0, 0.0));
}

fn jump(prepare: &dyn Fn(&mut CtxItem)) -> CtxItem {
    let world = Script::default();
    let mut session = Session::new(&world);
    let mut ctx = character();
    ctx.state.grounded = Some(floor());
    ctx.input.jumped = Some(clock(0));
    ctx.input.tac = Some(clock(0));
    ctx.input.craned = Some(clock(10));
    prepare(&mut ctx);
    handle_jump(zero(), &time(), &mut session, &mut ctx, &at(0.0, 1.0, 0.0));
    ctx
}

#[test]
fn a_jump_reaches_its_height() {
    let ctx = jump(&|_| {});
    // The square root of 2 * 32 * 1.
    assert_eq!(xyz(ctx.velocity), [0.0, 8.0, 0.0]);
    assert!(ctx.state.grounded.is_none());
    assert!(ctx.input.jumped.is_none() && ctx.input.tac.is_none());
    assert_eq!(ctx.state.last_ground, clock(100));
    assert_eq!(ctx.state.last_jump.elapsed, span(0));
    assert_eq!(ctx.state.last_tac.elapsed, span(0));
    // The crane press keeps 50 of 200 milliseconds.
    assert_eq!(ctx.input.craned, Some(clock(160)));
    // A chain time that is longer than the buffer keeps all of it.
    let ctx = jump(&|ctx| ctx.cfg.jump_crane_chain_time = millis_span(250));
    assert_eq!(ctx.input.craned, Some(clock(10)));
    // A rising platform adds its velocity.
    let ctx = jump(&|ctx| ctx.state.platform_velocity = v(0.0, 2.0, 0.0));
    assert_eq!(xyz(ctx.velocity), [0.0, 10.0, 0.0]);
}

#[test]
fn a_jump_needs_a_fresh_press_and_recent_ground() {
    assert_eq!(xyz(jump(&|ctx| ctx.input.jumped = None).velocity), [0.0, 0.0, 0.0]);
    assert_eq!(xyz(jump(&|ctx| ctx.input.jumped = Some(clock(151))).velocity), [0.0, 0.0, 0.0]);
    let late = |ctx: &mut CtxItem| {
        ctx.state.grounded = None;
        ctx.state.last_ground = clock(101);
        ctx.input.tac = None;
    };
    assert_eq!(xyz(jump(&late).velocity), [0.0, 0.0, 0.0]);
    let just = |ctx: &mut CtxItem| {
        ctx.state.grounded = None;
        ctx.state.last_ground = clock(100);
    };
    assert_eq!(xyz(jump(&just).velocity), [0.0, 8.0, 0.0]);
}

#[test]
fn a_jump_cannot_follow_a_jump() {
    let mut ctx = jump(&|_| {});
    let world = Script::default();
    let mut session = Session::new(&world);
    ctx.input.jumped = Some(clock(0));
    ctx.state.last_ground = ctx.state.last_ground.ticked(span(1));
    let before = ctx.velocity;
    handle_jump(zero(), &time(), &mut session, &mut ctx, &at(0.0, 1.0, 0.0));
    assert_eq!(ctx.velocity, before);
}

#[test]
fn a_quick_jump_restores_the_landing_speed() {
    let landed = |ctx: &mut CtxItem| {
        ctx.state.last_land = clock(100);
        ctx.state.land_speed = s(10.0);
        ctx.velocity = v(2.0, 0.0, 0.0);
    };
    assert_eq!(xyz(jump(&landed).velocity), [5.0, 8.0, 0.0]);
    let late = |ctx: &mut CtxItem| {
        landed(ctx);
        ctx.state.last_land = clock(200);
    };
    assert_eq!(xyz(jump(&late).velocity), [2.0, 8.0, 0.0]);
    let fast = |ctx: &mut CtxItem| {
        landed(ctx);
        ctx.velocity = v(6.0, 0.0, 0.0);
    };
    assert_eq!(xyz(jump(&fast).velocity), [6.0, 8.0, 0.0]);
    let still = |ctx: &mut CtxItem| {
        landed(ctx);
        ctx.velocity = zero();
    };
    assert_eq!(xyz(jump(&still).velocity), [0.0, 8.0, 0.0]);
}

fn tac(
    prepare: &dyn Fn(&mut CtxItem),
    wish: Vec3,
    casts: Vec<Option<MoveHitData>>,
) -> (Option<Vec3>, CtxItem) {
    let world = script(casts);
    let mut session = Session::new(&world);
    let mut ctx = character();
    ctx.input.tac = Some(clock(100));
    ctx.velocity = v(0.0, -2.0, -4.0);
    ctx.state.tac_velocity = s(3.0);
    prepare(&mut ctx);
    let dir = handle_tac(wish, &time(), &mut session, &mut ctx, &at(0.0, 1.0, 0.0));
    (dir, ctx)
}

#[test]
fn a_tic_tac_kicks_off_the_wall() {
    let side = v(0.0, 0.0, 1.0);
    let (dir, ctx) = tac(&|_| {}, wish(), vec![Some(hit(7, 0.0, side))]);
    let part = 2.0 / 3.0f32.sqrt();
    let dir = xyz(dir.unwrap());
    assert!(near(dir[0], part) && near(dir[1], part) && near(dir[2], part));
    assert_eq!(xyz(ctx.velocity), [0.0, -2.0, 0.0]);
    assert_eq!(f(ctx.state.tac_velocity), 0.0);
    // The wish finds the wall where the velocity does not.
    let (dir, _) = tac(&|_| {}, wish(), vec![None, Some(hit(7, 0.0, side))]);
    assert!(dir.is_some());
    // Little velocity lost, little strength.
    let weak = |ctx: &mut CtxItem| ctx.state.tac_velocity = s(0.5);
    let (dir, _) = tac(&weak, wish(), vec![Some(hit(7, 0.0, side))]);
    assert!(near(f(dir.unwrap().x), part / 2.0));
}

#[test]
fn a_tic_tac_is_refused() {
    let side = Some(hit(7, 0.0, v(0.0, 0.0, 1.0)));
    let refused: Vec<(&dyn Fn(&mut CtxItem), Vec3, Vec<Option<MoveHitData>>)> = vec![
        (&|ctx| ctx.state.mantle = Some(MantleState { height_left: s(1.0) }), wish(), vec![side]),
        (&|ctx| ctx.input.tac = None, wish(), vec![side]),
        (&|ctx| ctx.input.tac = Some(clock(151)), wish(), vec![side]),
        (&|_| {}, v(0.25, 0.0, 0.0), vec![side]),
        (&|ctx| ctx.state.last_tac = clock(299), wish(), vec![side]),
        // Free fall, an overhang, and a wall that is faced.
        (&|_| {}, wish(), vec![None, None]),
        (&|_| {}, wish(), vec![Some(hit(7, 0.0, v(0.0, -0.6, 0.8)))]),
        (&|_| {}, wish(), vec![Some(hit(7, 0.0, wall()))]),
    ];
    for (prepare, wish, casts) in refused {
        let (dir, ctx) = tac(prepare, wish, casts);
        assert!(dir.is_none());
        assert_eq!(xyz(ctx.velocity), [0.0, -2.0, -4.0]);
        assert_eq!(f(ctx.state.tac_velocity), 3.0);
    }
}

#[test]
fn a_tic_tac_is_launched_in_the_air() {
    let world = script(vec![Some(hit(7, 0.0, v(0.0, 0.0, 1.0)))]);
    let mut session = Session::new(&world);
    let mut ctx = character();
    ctx.input.tac = Some(clock(0));
    ctx.state.tac_velocity = s(1.0);
    handle_jump(wish(), &time(), &mut session, &mut ctx, &at(0.0, 1.0, 0.0));
    assert!(near(f(ctx.velocity.y), 16.0 / 3.0f32.sqrt()));
    assert!(ctx.input.tac.is_none());
    assert_eq!(ctx.state.last_tac.elapsed, span(0));
    assert_eq!(ctx.state.last_ground, clock(1_000));
}

#[test]
fn a_held_ledge_can_be_jumped_off() {
    let run = |prepare: &dyn Fn(&mut CtxItem)| {
        let mut ctx = character();
        ctx.state.mantle = Some(MantleState { height_left: s(1.0) });
        ctx.input.jumped = Some(clock(0));
        prepare(&mut ctx);
        let dir = handle_ledge_jump_dir(&mut ctx);
        (dir.map(xyz), ctx.state.mantle.is_some())
    };
    let (dir, held) = run(&|_| {});
    let part = 1.5 / 2.0f32.sqrt();
    let dir = dir.unwrap();
    assert!(dir[0] == 0.0 && near(dir[1], part) && near(dir[2], -part));
    assert!(!held);
    // Moving back lets go downward.
    let back = |ctx: &mut CtxItem| {
        ctx.input.last_movement = Some(Vec2 { x: s(0.0), y: s(-1.0) });
    };
    assert_eq!(run(&back), (Some([0.0, -1.5, 0.0]), false));
    // Not right after asking for a mantle, nor without a press or a ledge, nor looking straight up.
    assert_eq!(run(&|ctx| ctx.input.mantled = Some(clock(149))), (None, true));
    assert!(run(&|ctx| ctx.input.mantled = Some(clock(150))).0.is_some());
    assert_eq!(run(&|ctx| ctx.input.jumped = None), (None, true));
    assert_eq!(run(&|ctx| ctx.state.mantle = None), (None, false));
    let world = Script::default();
    let mut session = Session::new(&world);
    let mut ctx = character();
    ctx.state.mantle = Some(MantleState { height_left: s(1.0) });
    ctx.input.jumped = Some(clock(0));
    handle_jump(zero(), &time(), &mut session, &mut ctx, &at(0.0, 1.0, 0.0));
    assert!(near(f(ctx.velocity.y), 8.0 * part));
    assert!(ctx.state.mantle.is_none() && ctx.input.jumped.is_none());
}

fn bounce(prepare: &dyn Fn(&mut CtxItem), contacts: Vec<Contact>) -> CtxItem {
    let world = Script { contacts, ..Script::default() };
    let mut session = Session::new(&world);
    let mut ctx = character();
    ctx.input.bounced = Some(clock(100));
    ctx.velocity = v(6.0, 2.0, 0.0);
    prepare(&mut ctx);
    handle_bounce(&mut session, &mut ctx, &at(0.0, 1.0, 0.0));
    ctx
}

#[test]
fn a_bounce_mirrors_and_pops() {
    let ctx = bounce(&|_| {}, touching_wall());
    assert_eq!(xyz(ctx.velocity), [-3.0, 4.0, 0.0]);
    assert!(ctx.input.bounced.is_none());
    assert_eq!(ctx.state.last_bounce.elapsed, span(0));
    // An ascent is not slowed.
    let ctx = bounce(&|ctx| ctx.velocity = v(6.0, 10.0, 0.0), touching_wall());
    assert_eq!(xyz(ctx.velocity), [-3.0, 10.0, 0.0]);
    // At least the smallest speed.
    let ctx = bounce(&|ctx| ctx.velocity = zero(), touching_wall());
    assert_eq!(xyz(ctx.velocity), [-3.0, 4.0, 0.0]);
    // What the last slide took away counts.
    let slid = |ctx: &mut CtxItem| {
        ctx.velocity = v(0.0, 0.0, 5.0);
        ctx.state.last_velocity = v(16.0, 0.0, 5.0);
    };
    assert_eq!(xyz(bounce(&slid, touching_wall()).velocity), [-8.0, 4.0, 5.0]);
    // Already faster away from the wall.
    let away = |ctx: &mut CtxItem| {
        ctx.velocity = v(-9.0, 0.0, 0.0);
        ctx.state.last_velocity = v(-9.0, 0.0, 0.0);
    };
    assert_eq!(xyz(bounce(&away, touching_wall()).velocity), [-9.0, 4.0, 0.0]);
    // A slide along a wall that took the whole speed into it gives that speed back.
    let stopped = |ctx: &mut CtxItem| {
        ctx.velocity = v(0.0, 0.0, 5.0);
        ctx.state.last_velocity = v(-4.0, 0.0, 5.0);
        ctx.cfg.bounce_restitution = s(1.0);
        ctx.cfg.bounce_min_speed = s(1.0);
        ctx.cfg.gravity = s(8.0);
        ctx.cfg.jump_height = s(1.0);
        ctx.cfg.bounce_jump_factor = s(0.5);
    };
    let other_wall = vec![Contact { point: zero(), penetration: s(0.0), normal: v(1.0, 0.0, 0.0) }];
    assert_eq!(xyz(bounce(&stopped, other_wall).velocity), [4.0, 2.0, 5.0]);
}

#[test]
fn a_bounce_leaves_the_wall_fast_enough() {
    for into in [0.0f32, 0.5, 1.0, 3.0, 7.0, 20.0] {
        for sideways in [-5.0f32, 0.0, 2.0] {
            let ctx = bounce(&|ctx| ctx.velocity = v(into, 0.0, sideways), touching_wall());
            assert!(f(ctx.velocity.dot(wall())) >= f(ctx.cfg.bounce_min_speed));
            assert_eq!(f(ctx.velocity.z), sideways);
        }
    }
}

#[test]
fn a_bounce_ignores_keys_and_look() {
    let plain = bounce(&|_| {}, touching_wall());
    let other = |ctx: &mut CtxItem| {
        ctx.input.last_movement = Some(Vec2 { x: s(-1.0), y: s(1.0) });
        ctx.state.orientation = Quat { x: s(0.0), y: s(1.0), z: s(0.0), w: s(0.0) };
        ctx.look = Some(CharacterLook { yaw: s(1.0), pitch: s(0.5) });
    };
    assert_eq!(bounce(&other, touching_wall()).velocity, plain.velocity);
}

#[test]
fn a_bounce_is_refused() {
    let refused: Vec<(&dyn Fn(&mut CtxItem), Vec<Contact>)> = vec![
        (&|ctx| ctx.input.bounced = None, touching_wall()),
        (&|ctx| ctx.input.bounced = Some(clock(151)), touching_wall()),
        (&|ctx| ctx.state.last_bounce = clock(299), touching_wall()),
        (&|_| {}, vec![]),
        (&|_| {}, vec![Contact { point: zero(), penetration: s(0.0), normal: up() }]),
    ];
    for (prepare, contacts) in refused {
        let ctx = bounce(prepare, contacts);
        assert_eq!(xyz(ctx.velocity), [6.0, 2.0, 0.0]);
    }
}

fn slide(prepare: &dyn Fn(&mut CtxItem)) -> CtxItem {
    let mut ctx = character();
    ctx.state.crouching = true;
    ctx.state.grounded = Some(floor());
    ctx.velocity = v(8.0, 1.0, 0.0);
    prepare(&mut ctx);
    update_sliding(&mut ctx);
    ctx
}

#[test]
fn slides_start_with_a_fading_boost() {
    let ctx = slide(&|_| {});
    assert!(ctx.state.sliding);
    assert_eq!(xyz(ctx.velocity), [10.0, 1.0, 0.0]);
    assert_eq!(ctx.state.last_slide.elapsed, span(0));
    // Both horizontal parts grow alike: from 10, by 4 * (1 - 10 / 16).
    assert_eq!(
        xyz(slide(&|ctx| ctx.velocity = v(6.0, 1.0, -8.0)).velocity),
        [6.0 * 1.15, 1.0, -8.0 * 1.15]
    );
    // A slide that goes on is not boosted again.
    let sliding = slide(&|ctx| ctx.state.sliding = true);
    assert_eq!(xyz(sliding.velocity), [8.0, 1.0, 0.0]);
    assert_eq!(sliding.state.last_slide, clock(1_000));
    assert_eq!(xyz(slide(&|ctx| ctx.velocity = v(16.0, 0.0, 0.0)).velocity), [16.0, 0.0, 0.0]);
    assert_eq!(xyz(slide(&|ctx| ctx.velocity = v(0.0, 0.0, 32.0)).velocity), [0.0, 0.0, 32.0]);
    for prepare in [
        (&|ctx: &mut CtxItem| ctx.state.crouching = false) as &dyn Fn(&mut CtxItem),
        &|ctx| ctx.state.grounded = None,
        &|ctx| ctx.velocity = v(5.5, 0.0, 0.0),
        &|ctx| ctx.state.last_slide = clock(499),
    ] {
        assert!(!slide(prepare).state.sliding);
    }
}

#[test]
fn slides_end_slow_or_standing() {
    assert!(slide(&|ctx| ctx.state.sliding = true).state.sliding);
    let slow = |ctx: &mut CtxItem| {
        ctx.state.sliding = true;
        ctx.velocity = v(2.5, 0.0, 0.0);
    };
    assert!(!slide(&slow).state.sliding);
    let standing = |ctx: &mut CtxItem| {
        ctx.state.sliding = true;
        ctx.state.crouching = false;
    };
    let ctx = slide(&standing);
    assert!(!ctx.state.sliding);
    assert_eq!(xyz(ctx.velocity), [8.0, 1.0, 0.0]);
}

#[test]
fn crouching_lasts_until_there_is_room() {
    let run = |crouched: bool, crouching: bool, blocked: bool| {
        let overlaps = if blocked { vec![Overlap { entity: 4, water: false }] } else { vec![] };
        let world = Script { overlaps, ..Script::default() };
        let mut session = Session::new(&world);
        let mut ctx = character();
        ctx.input.crouched = crouched;
        ctx.state.crouching = crouching;
        handle_crouching(&mut session, &mut ctx, &at(0.0, 1.0, 0.0));
        // The room is looked for with the standing shape.
        for asked in world.overlap_queries.borrow().iter() {
            assert_eq!(asked.shape, Shape::Standing);
        }
        ctx.state.crouching
    };
    assert!(run(true, false, false));
    assert!(run(true, true, true));
    assert!(run(false, true, true));
    assert!(!run(false, true, false));
    assert!(!run(false, false, true));
}

#[test]
fn a_mantle_stays_between_foot_and_top() {
    for left in [0.0f32, 0.125, 0.5, 1.0, 1.5, 1.75] {
        for ahead in [-1.0f32, 1.0] {
            let casts = vec![Some(hit(7, 0.25, wall()))];
            let world = Script { contacts: touching_wall(), ..script(casts) };
            let mut session = Session::new(&world);
            let mut ctx = character();
            ctx.state.mantle = Some(MantleState { height_left: s(left) });
            ctx.input.last_movement = Some(Vec2 { x: s(0.0), y: s(ahead) });
            let mut here = at(0.0, 1.0, 0.0);
            let way = v(0.0, 0.0, -10.0 * ahead);
            handle_mantle_movement(way, &time(), &mut session, &mut ctx, &mut here);
            let now = f(ctx.state.mantle.unwrap().height_left);
            // Half a unit per step, between nothing and 2 - 0.25.
            assert_eq!(now, (left - 0.5 * ahead).clamp(0.0, 1.75));
            assert!(ctx.output.mantle.is_some());
        }
    }
}

#[test]
fn a_slide_starts_between_its_speed_and_the_full_boost() {
    for (x, z) in [(6.0f32, 0.0f32), (-7.5, 3.1), (0.3, 15.9), (-200.0, 90.0)] {
        for fades in [0.5f32, 16.0, 1e30, f32::INFINITY] {
            let start = |ctx: &mut CtxItem| {
                ctx.velocity = v(x, 1.0, z);
                ctx.cfg.slide_boost_max_speed = s(fades);
            };
            let ctx = slide(&start);
            assert!(ctx.state.sliding);
            let [after_x, after_y, after_z] = xyz(ctx.velocity).map(f64::from);
            let before = f64::from(x).hypot(f64::from(z));
            let after = after_x.hypot(after_z);
            assert!(after >= before * 0.99999);
            assert!(after <= (before + f64::from(f(ctx.cfg.slide_boost))) * 1.00001);
            assert_eq!(after_y, 1.0);
        }
    }
    // A boost that never fades is given in full.
    let full = slide(&|ctx| ctx.cfg.slide_boost_max_speed = s(f32::INFINITY));
    assert_eq!(xyz(full.velocity), [12.0, 1.0, 0.0]);
}

#[test]
fn many_climbs_stay_within_reach() {
    let mut left = 0.9f32;
    let ways = [-1.0f32, -1.0, -1.0, -1.0, 1.0, -1.0, 1.0, 1.0, 1.0, 1.0, 1.0, -1.0, -1.0];
    for ahead in ways.into_iter().cycle().take(130) {
        let casts = vec![Some(hit(7, 0.25, wall()))];
        let world = Script { contacts: touching_wall(), ..script(casts) };
        let mut session = Session::new(&world);
        let mut ctx = character();
        ctx.cfg.mantle_height = s(1.7);
        ctx.cfg.min_ledge_grab_space = v(0.25, 0.13, 0.25);
        ctx.cfg.mantle_speed = s(3.3);
        ctx.state.mantle = Some(MantleState { height_left: s(left) });
        ctx.input.last_movement = Some(Vec2 { x: s(0.0), y: s(ahead) });
        let mut here = at(0.0, 1.0, 0.0);
        let way = v(0.0, 0.0, -10.0 * ahead);
        handle_mantle_movement(way, &time(), &mut session, &mut ctx, &mut here);
        left = f(ctx.state.mantle.unwrap().height_left);
        assert!((-1e-5..=1.7 - 0.26 + 1e-5).contains(&left));
        assert!(ctx.output.mantle.is_some());
    }
}
