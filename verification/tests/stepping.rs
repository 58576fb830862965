#![allow(dead_code)]

use ahoy_kcc::clock::{span, Duration, Stopwatch, Time};
use ahoy_kcc::config::CharacterController;
use ahoy_kcc::context::{
    AccumulatedInput, BodyMeasures, CharacterControllerDerivedProps, CharacterControllerOutput,
    CharacterControllerState, CharacterLook, CtxItem, MoveHitData, WaterLevel,
};
use ahoy_kcc::scalar::{num, Scalar};
use ahoy_kcc::vector::{one, up, vec3, zero, Quat, Transform, Vec3};
use ahoy_kcc::world::{
    ApplyMovement, CarryPoint, CastMove, ColliderBounds, ColliderFriction, Contact, Overlap,
    Placement, Platform, Session, Slide, SlideOutput, World,
};
use std::cell::RefCell;
use std::collections::VecDeque;
use ahoy_kcc::collider::{setup_collider, ColliderSetup, CrouchShape, Recruit};
use ahoy_kcc::context::{MantleOutput, TouchingEntity};
use ahoy_kcc::step::step_kcc;
use ahoy_kcc::stepper::{
    run_kcc, spin_character_look, CharacterControllerStepper, Looking, Outcome,
};
use ahoy_kcc::vector::Vec2;

fn s(x: f32) -> Scalar {
    num(x.to_bits())
}

fn f(x: Scalar) -> f32 {
    f32::from_bits(x.bits())
}

fn v(x: f32, y: f32, z: f32) -> Vec3 {
    vec3(s(x), s(y), s(z))
}

fn xyz(a: Vec3) -> [f32; 3] {
    [f(a.x), f(a.y), f(a.z)]
}

fn identity() -> Quat {
    Quat { x: s(0.0), y: s(0.0), z: s(0.0), w: s(1.0) }
}

fn at(x: f32, y: f32, z: f32) -> Transform {
    Transform { translation: v(x, y, z), rotation: identity(), scale: one() }
}

fn clock(millis: u64) -> Stopwatch {
    Stopwatch { elapsed: millis_span(millis), paused: false }
}

fn millis_span(millis: u64) -> Duration {
    span(millis as u128 * 1_000_000)
}

/// Steps of an eighth of a second.
fn time() -> Time {
    Time { delta: millis_span(125), delta_secs: s(0.125) }
}

fn tuning() -> CharacterController {
    CharacterController {
        speed: s(10.0),
        max_speed: s(100.0),
        acceleration_hz: s(8.0),
        gravity: s(32.0),
        friction_hz: s(4.0),
        stop_speed: s(2.0),
        air_friction: s(0.0),
        ground_distance: s(0.125),
        min_walk_cos: s(0.75),
        unground_speed: s(9.0),
        skin_width: s(0.0625),
        step_size: s(0.5),
        min_step_ledge_space: s(0.25),
        step_down_detection_distance: s(0.2),
        air_control: s(16.0),
        max_carve_speed: s(50.0),
        carve_gain: s(0.5),
        water_gravity: s(2.0),
        water_slowdown: s(0.5),
        water_acceleration_hz: s(8.0),
        crouch_height: s(1.0),
        crouch_speed_scale: s(0.5),
        slide_friction_hz: s(1.0),
        slide_end_speed: s(3.0),
        slide_min_speed: s(6.0),
        slide_boost: s(4.0),
        slide_boost_max_speed: s(16.0),
        slide_cooldown: millis_span(500),
        jump_height: s(1.0),
        jump_input_buffer: millis_span(150),
        coyote_time: millis_span(100),
        jump_crane_chain_time: millis_span(50),
        land_momentum_window: millis_span(200),
        land_momentum_preservation: s(0.5),
        tac_input_buffer: millis_span(150),
        tac_cooldown: millis_span(300),
        max_tac_cos: s(0.5),
        tac_jump_factor: s(1.0),
        tac_power: s(2.0),
        bounce_input_buffer: millis_span(150),
        bounce_cooldown: millis_span(300),
        bounce_distance: s(0.5),
        bounce_restitution: s(0.5),
        bounce_min_speed: s(3.0),
        bounce_jump_factor: s(0.5),
        ledge_jump_factor: s(1.0),
        ledge_jump_power: s(1.5),
        crane_height: s(1.5),
        crane_speed: s(4.0),
        crane_input_buffer: millis_span(200),
        min_crane_ledge_space: s(0.5),
        min_crane_cos: s(0.5),
        mantle_height: s(2.0),
        mantle_speed: s(4.0),
        mantle_input_buffer: millis_span(150),
        min_mantle_cos: s(0.5),
        max_ledge_grab_distance: s(0.5),
        min_ledge_grab_space: v(0.25, 0.125, 0.25),
        climb_pull_up_height: s(0.25),
        climb_reverse_sin: s(0.5),
        climb_sensitivity: s(2.0),
    }
}

fn still() -> CharacterControllerState {
    CharacterControllerState {
        orientation: identity(),
        grounded: None,
        platform_velocity: zero(),
        platform_angular_velocity: zero(),
        crouching: false,
        sliding: false,
        crane_height_left: None,
        mantle: None,
        last_velocity: zero(),
        tac_velocity: s(0.0),
        land_speed: s(0.0),
        last_ground: clock(1_000),
        last_land: clock(1_000),
        last_slide: clock(1_000),
        last_bounce: clock(1_000),
        last_jump: clock(1_000),
        last_tac: clock(1_000),
        last_step_up: clock(1_000),
        last_step_down: clock(1_000),
    }
}

fn hands_off() -> AccumulatedInput {
    AccumulatedInput {
        last_movement: None,
        jumped: None,
        tac: None,
        bounced: None,
        craned: None,
        mantled: None,
        climbdown: None,
        crouched: false,
        swim_up: false,
    }
}

fn character() -> CtxItem {
    CtxItem {
        entity: 1,
        velocity: zero(),
        state: still(),
        derived: CharacterControllerDerivedProps {
            standing: BodyMeasures { radius: s(0.5), pos_to_head_dist: s(1.0) },
            crouching: BodyMeasures { radius: s(0.5), pos_to_head_dist: s(0.5) },
        },
        output: CharacterControllerOutput { touching_entities: vec![], mantle: None },
        transform: at(0.0, 1.0, 0.0),
        input: hands_off(),
        cfg: tuning(),
        water: WaterLevel::Dry,
        look: None,
        colliders: vec![11],
    }
}

fn hit(entity: u64, distance: f32, normal: Vec3) -> MoveHitData {
    MoveHitData {
        entity,
        distance: s(distance),
        point1: v(1.0, 2.0, 3.0),
        point2: zero(),
        normal1: normal,
        normal2: normal.negated(),
        collision_distance: s(distance + 0.0625),
    }
}

fn floor() -> MoveHitData {
    hit(5, 0.0625, up())
}

/// Surroundings that reply from a script, and remember what they were asked. Where the script ends,
/// nothing is in the way.
#[derive(Default)]
struct Script {
    casts: RefCell<VecDeque<Option<MoveHitData>>>,
    cast_queries: RefCell<Vec<CastMove>>,
    offsets: RefCell<VecDeque<Vec3>>,
    slides: RefCell<VecDeque<SlideOutput>>,
    slide_queries: RefCell<Vec<Slide>>,
    contacts: Vec<Contact>,
    overlaps: Vec<Overlap>,
    overlap_queries: RefCell<Vec<Placement>>,
    poses: Vec<(u64, (Vec3, Quat))>,
    platforms: Vec<(u64, Platform)>,
    collider_frictions: Vec<(u64, ColliderFriction)>,
    body_frictions: Vec<(u64, Scalar)>,
    bounds: Vec<(u64, ColliderBounds)>,
    carried: Option<Vec3>,
    carry_queries: RefCell<Vec<CarryPoint>>,
    apply_queries: RefCell<Vec<ApplyMovement>>,
    angle: Option<Scalar>,
    turns: RefCell<Vec<Scalar>>,
}

fn find<T: Copy>(list: &[(u64, T)], key: u64) -> Option<T> {
    list.iter().find(|(k, _)| *k == key).map(|(_, value)| *value)
}

impl World for Script {
    fn cast_move(&self, query: CastMove) -> Option<MoveHitData> {
        self.cast_queries.borrow_mut().push(query);
        self.casts.borrow_mut().pop_front().unwrap_or(None)
    }

    fn depenetrate(&self, _placement: Placement) -> Vec3 {
        self.offsets.borrow_mut().pop_front().unwrap_or(zero())
    }

    fn slide(&self, query: Slide) -> SlideOutput {
        self.slide_queries.borrow_mut().push(query);
        let free = SlideOutput {
            position: query.placement.position
                + query.velocity * s(query.delta.nanos() as f32 / 1e9),
            projected_velocity: query.velocity,
            touched: vec![],
        };
        self.slides.borrow_mut().pop_front().unwrap_or(free)
    }

    fn contacts(&self, _placement: Placement, _reach: Scalar) -> Vec<Contact> {
        self.contacts.clone()
    }

    fn overlaps(&self, placement: Placement) -> Vec<Overlap> {
        self.overlap_queries.borrow_mut().push(placement);
        self.overlaps.clone()
    }

    fn pose(&self, entity: u64) -> Option<(Vec3, Quat)> {
        find(&self.poses, entity)
    }

    fn platform(&self, entity: u64) -> Option<Platform> {
        find(&self.platforms, entity)
    }

    fn collider_friction(&self, entity: u64) -> Option<ColliderFriction> {
        find(&self.collider_frictions, entity)
    }

    fn body_friction(&self, body: u64) -> Option<Scalar> {
        find(&self.body_frictions, body)
    }

    fn bounds(&self, entity: u64) -> Option<ColliderBounds> {
        find(&self.bounds, entity)
    }

    fn seconds(&self, duration: Duration) -> Scalar {
        s(duration.nanos() as f32 / 1e9)
    }

    fn angle_between(&self, _from: Vec3, _to: Vec3) -> Scalar {
        self.angle.unwrap_or(s(0.0))
    }

    fn carry_point(&self, query: CarryPoint) -> Vec3 {
        self.carry_queries.borrow_mut().push(query);
        self.carried.unwrap_or(query.point + (query.to - query.from))
    }

    fn apply_movement(&self, query: ApplyMovement) -> Transform {
        self.apply_queries.borrow_mut().push(query);
        Transform {
            translation: query.current.translation
                + (query.moved.translation - query.original.translation),
            rotation: query.current.rotation,
            scale: query.current.scale,
        }
    }

    fn look_rotation(&self, look: CharacterLook) -> Quat {
        let half = f(look.yaw) / 2.0;
        Quat { x: s(0.0), y: s(half.sin()), z: s(0.0), w: s(half.cos()) }
    }

    fn turn_look(&self, look: CharacterLook, angle: Scalar) -> CharacterLook {
        self.turns.borrow_mut().push(angle);
        CharacterLook { yaw: look.yaw + angle, pitch: look.pitch }
    }
}

fn script(casts: Vec<Option<MoveHitData>>) -> Script {
    Script { casts: RefCell::new(casts.into()), ..Script::default() }
}

fn movements(world: &Script) -> Vec<[f32; 3]> {
    world.cast_queries.borrow().iter().map(|q| xyz(q.movement)).collect()
}

fn standing_world(casts: Vec<Option<MoveHitData>>) -> Script {
    Script {
        poses: vec![
            (11, (v(0.0, 1.0, 0.0), identity())),
            (12, (v(50.0, 1.0, 0.0), identity())),
        ],
        ..script(casts)
    }
}

fn ahead() -> Option<Vec2> {
    Some(Vec2 { x: s(0.0), y: s(1.0) })
}

#[test]
fn a_step_walks() {
    // The ground before, the way ahead, two casts of the snap, the ground after.
    let world = standing_world(vec![Some(floor()), None, None, None, Some(floor())]);
    let mut session = Session::new(&world);
    let mut ctx = character();
    ctx.input.last_movement = ahead();
    assert!(step_kcc(s(1.0), &time(), &mut session, &mut ctx));
    assert_eq!(xyz(ctx.velocity), [0.0, 0.0, -10.0]);
    assert_eq!(xyz(ctx.transform.translation), [0.0, 1.0, -1.25]);
    assert!(ctx.state.grounded.is_some());
    assert_eq!(ctx.state.last_ground.elapsed, span(0));
    let asked = world.apply_queries.borrow()[0];
    assert_eq!(xyz(asked.original.translation), [0.0, 1.0, 0.0]);
    assert_eq!(xyz(asked.original.scale), [1.0, 1.0, 1.0]);
    assert_eq!(xyz(asked.moved.translation), [0.0, 1.0, -1.25]);
}

#[test]
fn a_step_falls() {
    let world = standing_world(vec![]);
    let mut session = Session::new(&world);
    let mut ctx = character();
    assert!(step_kcc(s(1.0), &time(), &mut session, &mut ctx));
    // Half of gravity before the move, half after it.
    assert_eq!(xyz(ctx.velocity), [0.0, -4.0, 0.0]);
    assert_eq!(xyz(ctx.transform.translation), [0.0, 0.75, 0.0]);
    assert!(ctx.state.grounded.is_none());
    assert_eq!(ctx.state.last_ground, clock(1_125));
}

#[test]
fn a_step_lets_every_clock_tick_and_reports_anew() {
    let world = standing_world(vec![]);
    let mut session = Session::new(&world);
    let mut ctx = character();
    ctx.output.touching_entities.push(TouchingEntity {
        entity: 9,
        distance: s(0.5),
        point: zero(),
        normal: up(),
        position: zero(),
        velocity: zero(),
        collision_distance: s(0.5),
    });
    ctx.output.mantle = Some(MantleOutput {
        wall_normal: up(),
        ledge_position: zero(),
        wall_entity: 3,
    });
    assert!(step_kcc(s(1.0), &time(), &mut session, &mut ctx));
    assert!(ctx.output.touching_entities.is_empty());
    assert!(ctx.output.mantle.is_none());
    let ticked = clock(1_125);
    assert_eq!(ctx.state.last_land, ticked);
    assert_eq!(ctx.state.last_slide, ticked);
    assert_eq!(ctx.state.last_bounce, ticked);
    assert_eq!(ctx.state.last_jump, ticked);
    assert_eq!(ctx.state.last_tac, ticked);
    assert_eq!(ctx.state.last_step_up, ticked);
    assert_eq!(ctx.state.last_step_down, ticked);
}

#[test]
fn a_step_jumps() {
    let world = standing_world(vec![Some(floor())]);
    let mut session = Session::new(&world);
    let mut ctx = character();
    ctx.input.jumped = Some(clock(0));
    assert!(step_kcc(s(1.0), &time(), &mut session, &mut ctx));
    // 8 up, less both halves of gravity.
    assert_eq!(xyz(ctx.velocity), [0.0, 4.0, 0.0]);
    assert!(ctx.state.grounded.is_none());
    assert!(ctx.input.jumped.is_none());
    // A new press does not help in the air.
    ctx.input.jumped = Some(clock(0));
    assert!(step_kcc(s(1.0), &time(), &mut session, &mut ctx));
    assert_eq!(xyz(ctx.velocity), [0.0, 0.0, 0.0]);
}

#[test]
fn a_step_swims_without_gravity() {
    let world = standing_world(vec![]);
    let mut session = Session::new(&world);
    let mut ctx = character();
    ctx.water = WaterLevel::Center;
    ctx.input.swim_up = true;
    assert!(step_kcc(s(1.0), &time(), &mut session, &mut ctx));
    assert_eq!(xyz(ctx.velocity), [0.0, 5.0, 0.0]);
    assert!(!ctx.input.swim_up);
    // Wet feet do not count.
    let mut ctx = character();
    ctx.water = WaterLevel::Feet;
    ctx.input.swim_up = true;
    assert!(step_kcc(s(1.0), &time(), &mut session, &mut ctx));
    assert_eq!(xyz(ctx.velocity), [0.0, -4.0, 0.0]);
    assert!(ctx.input.swim_up);
}

#[test]
fn a_step_follows_the_look() {
    let world = standing_world(vec![Some(floor()), None, None, None, Some(floor())]);
    let mut session = Session::new(&world);
    let mut ctx = character();
    ctx.look = Some(CharacterLook { yaw: s(std::f32::consts::FRAC_PI_2), pitch: s(0.0) });
    ctx.input.last_movement = ahead();
    assert!(step_kcc(s(1.0), &time(), &mut session, &mut ctx));
    assert!((f(ctx.velocity.x) + 10.0).abs() < 1e-4);
    assert!(f(ctx.velocity.z).abs() < 1e-4);
}

#[test]
fn a_step_cranes_before_anything_else() {
    let wall = v(0.0, 0.0, 1.0);
    let facing = Some(hit(7, 0.25, wall));
    let world = standing_world(vec![
        Some(floor()),
        facing,
        None,
        Some(hit(8, 0.5, up())),
        None,
        Some(hit(8, 0.75, up())),
        facing,
        facing,
        None,
        facing,
    ]);
    let mut session = Session::new(&world);
    let mut ctx = character();
    ctx.input.last_movement = ahead();
    ctx.input.craned = Some(clock(0));
    ctx.input.jumped = Some(clock(0));
    assert!(step_kcc(s(1.0), &time(), &mut session, &mut ctx));
    assert_eq!(ctx.state.crane_height_left.map(f), Some(0.5));
    assert_eq!(f(ctx.transform.translation.y), 1.5);
    assert!(ctx.input.jumped.is_none());
    assert!(ctx.state.mantle.is_none());
}

#[test]
fn a_step_mantles_and_holds_on() {
    let wall = v(0.0, 0.0, 1.0);
    let facing = Some(hit(7, 0.25, wall));
    let world = Script {
        contacts: vec![Contact { point: zero(), penetration: s(0.0), normal: wall }],
        ..standing_world(vec![
            None,
            facing,
            None,
            Some(hit(8, 0.5, up())),
            None,
            Some(hit(8, 0.75, up())),
            facing,
        ])
    };
    let mut session = Session::new(&world);
    let mut ctx = character();
    ctx.input.last_movement = ahead();
    ctx.input.mantled = Some(clock(0));
    assert!(step_kcc(s(1.0), &time(), &mut session, &mut ctx));
    // 0.75 to climb, half a unit per step.
    assert_eq!(ctx.state.mantle.map(|m| f(m.height_left)), Some(0.25));
    assert_eq!(f(ctx.transform.translation.y), 1.5);
    assert_eq!(ctx.output.mantle.map(|m| m.wall_entity), Some(7));
}

#[test]
fn a_character_whose_collider_is_nowhere_is_left_alone() {
    let world = Script::default();
    let mut session = Session::new(&world);
    for colliders in [vec![], vec![99]] {
        let mut ctx = character();
        ctx.velocity = v(1.0, 2.0, 3.0);
        ctx.colliders = colliders;
        assert!(ctx.collider_global_transform(&mut session).is_none());
        assert!(!step_kcc(s(1.0), &time(), &mut session, &mut ctx));
        assert_eq!(xyz(ctx.velocity), [1.0, 2.0, 3.0]);
        assert_eq!(ctx.state, still());
        assert_eq!(ctx.transform, at(0.0, 1.0, 0.0));
    }
}

#[test]
fn the_first_collider_counts() {
    let world = standing_world(vec![]);
    let mut session = Session::new(&world);
    let mut ctx = character();
    ctx.colliders = vec![12, 11];
    let found = ctx.collider_global_transform(&mut session).unwrap();
    assert_eq!(found, at(50.0, 1.0, 0.0));
}

#[test]
fn velocities_that_are_not_finite_do_not_survive_a_step() {
    let world = standing_world(vec![]);
    let mut session = Session::new(&world);
    let mut ctx = character();
    ctx.velocity = v(f32::NAN, f32::INFINITY, f32::NEG_INFINITY);
    assert!(step_kcc(s(1.0), &time(), &mut session, &mut ctx));
    for part in xyz(ctx.velocity) {
        assert!(part.is_finite());
    }
}

#[test]
fn all_characters_are_stepped() {
    let world = standing_world(vec![]);
    let mut session = Session::new(&world);
    let mut lost = character();
    lost.entity = 2;
    lost.colliders = vec![99];
    let mut far = character();
    far.entity = 3;
    far.colliders = vec![12];
    far.transform = at(50.0, 1.0, 0.0);
    let mut all = vec![character(), lost, far];
    assert_eq!(run_kcc(&mut all, s(1.0), &time(), &mut session), vec![true, false, true]);
    assert_eq!(xyz(all[0].velocity), [0.0, -4.0, 0.0]);
    assert_eq!(xyz(all[1].velocity), [0.0, 0.0, 0.0]);
    assert_eq!(all[1].state, still());
    assert_eq!(xyz(all[2].velocity), [0.0, -4.0, 0.0]);
    assert_eq!(xyz(all[2].transform.translation), [50.0, 0.75, 0.0]);
}

#[test]
fn one_character_is_stepped() {
    let world = standing_world(vec![]);
    let mut far = character();
    far.entity = 3;
    far.colliders = vec![12];
    let mut lost = character();
    lost.entity = 4;
    lost.colliders = vec![];
    let mut stepper = CharacterControllerStepper {
        kccs: vec![character(), far, lost],
        default_friction: s(1.0),
        session: Session::new(&world),
    };
    assert_eq!(stepper.run_kcc(3, millis_span(125)), Outcome::Stepped);
    assert_eq!(xyz(stepper.kccs[0].velocity), [0.0, 0.0, 0.0]);
    assert_eq!(stepper.kccs[0].state, still());
    assert_eq!(xyz(stepper.kccs[1].velocity), [0.0, -4.0, 0.0]);
    assert_eq!(stepper.kccs[2].state, still());
    assert_eq!(stepper.run_kcc(4, millis_span(125)), Outcome::NoCollider);
    assert_eq!(stepper.kccs[2].state, still());
    assert_eq!(stepper.run_kcc(5, millis_span(125)), Outcome::NoCharacter);
    assert_eq!(stepper.kccs.len(), 3);
}

#[test]
fn both_names_step_alike() {
    let world = standing_world(vec![]);
    let with = |named: bool| {
        let mut stepper = CharacterControllerStepper {
            kccs: vec![character()],
            default_friction: s(1.0),
            session: Session::new(&world),
        };
        stepper.kccs[0].velocity = v(3.0, 4.0, 5.0);
        let outcome = if named {
            stepper.step_entity(1, millis_span(16))
        } else {
            stepper.run_kcc(1, millis_span(16))
        };
        (outcome, stepper.kccs[0].velocity, stepper.kccs[0].state, stepper.kccs[0].transform)
    };
    assert_eq!(with(true), with(false));
    // And as a step of all characters does.
    let mut session = Session::new(&world);
    let mut all = vec![character()];
    all[0].velocity = v(3.0, 4.0, 5.0);
    let secs = world.seconds(millis_span(16));
    let step = Time { delta: millis_span(16), delta_secs: secs };
    run_kcc(&mut all, s(1.0), &step, &mut session);
    assert_eq!(
        with(false),
        (Outcome::Stepped, all[0].velocity, all[0].state, all[0].transform)
    );
}

#[test]
fn looks_turn_with_the_ground() {
    let world = Script::default();
    let mut session = Session::new(&world);
    let look = CharacterLook { yaw: s(1.0), pitch: s(0.5) };
    let mut standing = Looking { state: still(), look };
    standing.state.grounded = Some(floor());
    standing.state.platform_angular_velocity = v(5.0, 2.0, 5.0);
    let mut flying = Looking { state: still(), look };
    flying.state.platform_angular_velocity = v(0.0, 2.0, 0.0);
    let mut all = vec![standing, flying];
    spin_character_look(&mut all, &time(), &mut session);
    assert_eq!(all[0].look, CharacterLook { yaw: s(1.25), pitch: s(0.5) });
    assert_eq!(all[0].state, standing.state);
    assert_eq!(all[1], flying);
    let turns: Vec<f32> = world.turns.borrow().iter().map(|a| f(*a)).collect();
    assert_eq!(turns, vec![0.25]);
}

fn recruit(ctx: CtxItem) -> Recruit {
    Recruit {
        entity: ctx.entity,
        crouch_height: ctx.cfg.crouch_height,
        hand_half_size: ctx.cfg.min_ledge_grab_space,
        colliders: ctx.colliders,
        excluded: vec![],
        setup: None,
    }
}

#[test]
fn shapes_follow_from_the_collider() {
    let capsule = ColliderBounds {
        min_y: s(-1.0),
        max_y: s(1.0),
        capsule_radius: Some(s(0.25)),
    };
    let block = ColliderBounds { min_y: s(-2.0), max_y: s(2.0), capsule_radius: None };
    let world = Script { bounds: vec![(11, capsule), (12, block)], ..Script::default() };
    let mut session = Session::new(&world);
    let mut second = character();
    second.entity = 2;
    second.colliders = vec![12, 13];
    let mut all = vec![recruit(character()), recruit(second)];
    all[0].excluded = vec![4, 11];
    all[1].excluded = vec![4];
    assert!(setup_collider(&mut all, &mut session));
    assert_eq!((&all[0].excluded, &all[1].excluded), (&vec![4, 11], &vec![4, 12]));
    let made: Vec<ColliderSetup> = all.iter().map(|r| r.setup.unwrap()).collect();
    assert_eq!((made[0].entity, made[0].collider, made[0].ambiguous), (1, 11, false));
    assert_eq!(
        made[0].crouching,
        CrouchShape::Capsule { half_height: s(0.375), radius: s(0.25) }
    );
    assert_eq!(xyz(made[0].crouch_offset), [0.0, -0.5, 0.0]);
    assert_eq!(xyz(made[0].hand_half_size), [0.25, 0.125, 0.25]);
    assert_eq!((made[1].entity, made[1].collider, made[1].ambiguous), (2, 12, true));
    assert_eq!(
        made[1].crouching,
        CrouchShape::Scaled { scale: v(1.0, 0.25, 1.0), subdivisions: 16 }
    );
    assert_eq!(xyz(made[1].crouch_offset), [0.0, -1.5, 0.0]);
    // Once more changes nothing.
    all[0].crouch_height = s(9.0);
    assert!(setup_collider(&mut all, &mut session));
    assert_eq!(all.iter().map(|r| r.setup.unwrap()).collect::<Vec<_>>(), made);
    assert_eq!((&all[0].excluded, &all[1].excluded), (&vec![4, 11], &vec![4, 12]));
    // A capsule never gets a negative height.
    let mut low = character();
    low.cfg.crouch_height = s(0.125);
    let mut all = vec![recruit(low)];
    assert!(setup_collider(&mut all, &mut session));
    assert_eq!(
        all[0].setup.unwrap().crouching,
        CrouchShape::Capsule { half_height: s(0.0), radius: s(0.25) }
    );
}

#[test]
fn setting_up_stops_at_a_missing_collider() {
    let block = ColliderBounds { min_y: s(-1.0), max_y: s(1.0), capsule_radius: None };
    let world = Script { bounds: vec![(11, block)], ..Script::default() };
    let mut session = Session::new(&world);
    let mut lost = character();
    lost.colliders = vec![99];
    let mut all = vec![recruit(character()), recruit(lost), recruit(character())];
    assert!(!setup_collider(&mut all, &mut session));
    assert!(all[0].setup.is_some() && all[1].setup.is_none() && all[2].setup.is_none());
    assert!(all[1].excluded.is_empty() && all[2].excluded.is_empty());
    assert!(setup_collider(&mut vec![], &mut session));
}

#[test]
fn the_order_of_characters_does_not_matter() {
    let moving = |entity: u64, collider: u64, x: f32| {
        let mut ctx = character();
        ctx.entity = entity;
        ctx.colliders = vec![collider];
        ctx.velocity = v(x, 1.0, -x);
        ctx
    };
    let step = |order: [u64; 3]| {
        let world = standing_world(vec![]);
        let mut session = Session::new(&world);
        let mut all: Vec<CtxItem> = order
            .iter()
            .map(|entity| moving(*entity, 10 + *entity, *entity as f32))
            .collect();
        let stepped = run_kcc(&mut all, s(1.0), &time(), &mut session);
        let mut done: Vec<_> = all
            .iter()
            .zip(stepped)
            .map(|(ctx, stepped)| (ctx.entity, stepped, ctx.velocity, ctx.transform, ctx.state))
            .collect();
        done.sort_by_key(|character| character.0);
        done
    };
    let first = step([1, 2, 3]);
    assert_eq!(first.iter().map(|c| c.1).collect::<Vec<_>>(), vec![true, true, false]);
    assert_eq!(step([3, 1, 2]), first);
    assert_eq!(step([2, 3, 1]), first);
    // And alone.
    let world = standing_world(vec![]);
    let mut session = Session::new(&world);
    let mut alone = moving(2, 12, 2.0);
    assert!(step_kcc(s(1.0), &time(), &mut session, &mut alone));
    assert_eq!((alone.velocity, alone.transform, alone.state), (first[1].2, first[1].3, first[1].4));
}

#[test]
fn deep_water_takes_the_ground_away() {
    let world = standing_world(vec![Some(floor()), Some(floor()), Some(floor())]);
    let mut session = Session::new(&world);
    let mut ctx = character();
    ctx.water = WaterLevel::Center;
    ctx.state.grounded = Some(floor());
    ctx.velocity = v(500.0, 0.0, 0.0);
    assert!(step_kcc(s(1.0), &time(), &mut session, &mut ctx));
    assert!(ctx.state.grounded.is_none());
    assert!(f(ctx.velocity.length()) <= 100.001);
}

#[test]
fn a_step_moves_and_never_turns() {
    let leaning = Quat { x: s(0.6), y: s(0.0), z: s(0.8), w: s(0.0) };
    for casts in [vec![], vec![Some(floor()), None, None, None, Some(floor())]] {
        let world = Script {
            poses: vec![(11, (v(0.0, 1.0, 0.0), leaning))],
            ..script(casts)
        };
        let mut session = Session::new(&world);
        let mut ctx = character();
        ctx.velocity = v(3.0, 0.0, -2.0);
        ctx.input.last_movement = ahead();
        let before = ctx.transform;
        assert!(step_kcc(s(1.0), &time(), &mut session, &mut ctx));
        let asked = world.apply_queries.borrow()[0];
        assert_eq!(asked.original.rotation, leaning);
        assert_eq!(asked.moved.rotation, leaning);
        assert_eq!(asked.moved.scale, asked.original.scale);
        assert_eq!(asked.current, before);
        assert!(asked.moved.translation != asked.original.translation);
        assert_eq!(ctx.transform, world.apply_movement(asked));
    }
}

#[test]
fn characters_that_are_set_up_need_no_collider() {
    let block = ColliderBounds { min_y: s(-1.0), max_y: s(1.0), capsule_radius: None };
    let world = Script { bounds: vec![(11, block)], ..Script::default() };
    let mut session = Session::new(&world);
    let mut all = vec![recruit(character())];
    assert!(setup_collider(&mut all, &mut session));
    let made = all[0].setup;
    all[0].colliders.clear();
    all.push(recruit(character()));
    assert!(setup_collider(&mut all, &mut session));
    assert_eq!(all[0].setup, made);
    assert!(all[1].setup.is_some());
}
