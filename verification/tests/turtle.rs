use dcc_lsystem::renderer::{resolve_moves, trace};
use dcc_lsystem::{
    BaseTurtle, Distribution, Heading, LSystemError, PathStep, TurtleAction, TurtleLSystemBuilder,
    Uniform,
};

/// The displacement the examples use: heading in degrees through `f32`
/// trigonometry, each component truncated to an integer.
fn displacement(heading: i64, distance: i32) -> (i32, i32) {
    let radians = (heading as f32).to_radians();
    let dx = radians.cos() * distance as f32;
    let dy = radians.sin() * distance as f32;
    (dx as i32, dy as i32)
}

fn run_steps(steps: &Vec<PathStep>) -> BaseTurtle {
    let mut moves = Vec::new();
    for step in steps.iter() {
        if let PathStep::Forward { heading, distance } = step {
            moves.push(displacement(*heading, *distance));
        }
    }
    let resolved = resolve_moves(steps, &moves).unwrap();
    trace(&resolved).unwrap()
}

#[test]
fn base_turtle_records_lines_only_with_pen_down() {
    let mut t = BaseTurtle::new();
    t.delta_move(3, 4);
    t.pen_up();
    t.delta_move(-5, 2);
    t.pen_down();
    t.delta_move(0, -10);
    assert_eq!(t.x(), -2);
    assert_eq!(t.y(), -4);
    assert_eq!(t.lines(), &vec![(0, 0, 3, 4), (-2, 6, -2, -4)]);
}

#[test]
fn bounds_cover_every_visited_point() {
    let mut t = BaseTurtle::new();
    t.delta_move(10, 20);
    t.set_position(-7, 5);
    t.delta_move(2, -11);
    let (width, height, min_x, min_y) = t.bounds();
    assert_eq!((width, height, min_x, min_y), (17, 26, -7, -6));
    // Translating by (-min_x, -min_y) puts every endpoint in
    // [0, width] x [0, height].
    for &(x1, y1, x2, y2) in t.lines().iter() {
        for (x, y) in [(x1, y1), (x2, y2)] {
            let tx = (x - min_x) as u32;
            let ty = (y - min_y) as u32;
            assert!(x - min_x >= 0 && tx <= width);
            assert!(y - min_y >= 0 && ty <= height);
        }
    }
}

#[test]
fn heading_turns_and_unit_steps() {
    assert_eq!(Heading::North.left(), Heading::West);
    assert_eq!(Heading::West.left(), Heading::South);
    assert_eq!(Heading::North.right(), Heading::East);
    assert_eq!(Heading::East.right(), Heading::South);
    assert_eq!(Heading::East.dx(), 1);
    assert_eq!(Heading::West.dx(), -1);
    assert_eq!(Heading::North.dy(), 1);
    assert_eq!(Heading::South.dy(), -1);
    assert_eq!(Heading::North.dx(), 0);
    assert_eq!(Heading::East.dy(), 0);
}

#[test]
fn koch_curve_first_generation() {
    let mut builder = TurtleLSystemBuilder::new();
    builder
        .token(String::from("F"), TurtleAction::Forward(30))
        .unwrap();
    builder
        .token(String::from("+"), TurtleAction::Rotate(90))
        .unwrap();
    builder
        .token(String::from("-"), TurtleAction::Rotate(-90))
        .unwrap();
    builder.initial("F").unwrap();
    builder.rule("F => F + F - F - F + F").unwrap();
    let (mut system, renderer) = builder.finish().unwrap();

    system.step();
    assert_eq!(system.render(), "F+F-F-F+F");

    let steps = renderer.resolve(&system).unwrap();
    let turtle = run_steps(&steps);
    let lines = turtle.lines();
    assert_eq!(lines.len(), 5);
    assert_eq!(
        lines,
        &vec![
            (0, 0, 30, 0),
            (30, 0, 30, 30),
            (30, 30, 60, 30),
            (60, 30, 60, 0),
            (60, 0, 90, 0),
        ]
    );
    // Each drawn segment has length 30.
    for &(x1, y1, x2, y2) in lines.iter() {
        assert_eq!((x2 - x1).abs() + (y2 - y1).abs(), 30);
    }
    assert_eq!(turtle.bounds(), (90, 30, 0, 0));
}

#[test]
fn balanced_push_pop_replays_without_underflow() {
    let mut builder = TurtleLSystemBuilder::new();
    builder
        .token(String::from("F"), TurtleAction::Forward(10))
        .unwrap();
    builder
        .token(String::from("["), TurtleAction::Push)
        .unwrap();
    builder
        .token(String::from("]"), TurtleAction::Pop)
        .unwrap();
    builder
        .token(String::from("+"), TurtleAction::Rotate(90))
        .unwrap();
    builder.initial("F [ + F ] F").unwrap();
    let (system, renderer) = builder.finish().unwrap();

    let steps = renderer.resolve(&system).unwrap();
    let turtle = run_steps(&steps);
    // The branch is drawn, then the pen returns to the fork and goes on.
    assert_eq!(
        turtle.lines(),
        &vec![(0, 0, 10, 0), (10, 0, 10, 10), (10, 0, 20, 0)]
    );
}

#[test]
fn unmatched_pop_is_a_stack_underflow() {
    let mut builder = TurtleLSystemBuilder::new();
    builder
        .token(String::from("F"), TurtleAction::Forward(10))
        .unwrap();
    builder
        .token(String::from("]"), TurtleAction::Pop)
        .unwrap();
    builder.initial("] F").unwrap();
    let (system, renderer) = builder.finish().unwrap();
    let err = renderer.resolve(&system);
    assert!(matches!(err, Err(LSystemError::StackUnderflow)));
}

#[test]
fn global_rotate_tilts_every_heading() {
    let mut builder = TurtleLSystemBuilder::new();
    builder
        .token(String::from("F"), TurtleAction::Forward(10))
        .unwrap();
    builder.rotate(90);
    builder.initial("F F").unwrap();
    let (system, renderer) = builder.finish().unwrap();
    let steps = renderer.resolve(&system).unwrap();
    let turtle = run_steps(&steps);
    assert_eq!(turtle.lines(), &vec![(0, 0, 0, 10), (0, 10, 0, 20)]);
}

#[test]
fn rotation_wraps_modulo_360() {
    let mut builder = TurtleLSystemBuilder::new();
    builder
        .token(String::from("F"), TurtleAction::Forward(10))
        .unwrap();
    builder
        .token(String::from("+"), TurtleAction::Rotate(270))
        .unwrap();
    // 270 + 270 = 540 wraps to 180: the second move goes back west.
    builder.initial("+ + F").unwrap();
    let (system, renderer) = builder.finish().unwrap();
    let steps = renderer.resolve(&system).unwrap();
    match steps[0] {
        PathStep::Forward { heading, distance } => {
            assert_eq!(heading, 180);
            assert_eq!(distance, 10);
        }
        _ => panic!("expected a forward step"),
    }
}

#[test]
fn malformed_and_unknown_rule_text() {
    let mut builder = TurtleLSystemBuilder::new();
    builder
        .token(String::from("F"), TurtleAction::Forward(10))
        .unwrap();
    assert!(matches!(
        builder.rule("F F F"),
        Err(LSystemError::MalformedRule(_))
    ));
    assert!(matches!(
        builder.rule("G => F"),
        Err(LSystemError::UnknownName(_))
    ));
    assert!(matches!(
        builder.rule("F => F G"),
        Err(LSystemError::UnknownName(_))
    ));
    assert!(matches!(
        builder.initial("F G"),
        Err(LSystemError::UnknownName(_))
    ));
    assert!(matches!(
        builder.initial("   "),
        Err(LSystemError::EmptyInitialState)
    ));
}

#[test]
fn constant_distribution_samples_its_value() {
    let d = Distribution::Constant(7);
    for _ in 0..10 {
        assert_eq!(d.sample(), 7);
    }
}

#[test]
fn uniform_distribution_samples_in_range() {
    let d = Distribution::Uniform(Uniform::new(5, 10));
    let mut seen = Vec::new();
    for _ in 0..200 {
        let v = d.sample();
        assert!((5..10).contains(&v));
        if !seen.contains(&v) {
            seen.push(v);
        }
    }
    // A genuine sampler almost surely hits more than one value in
    // two hundred draws over five possibilities.
    assert!(seen.len() > 1);
}

#[test]
fn degenerate_uniform_range_gives_single_value() {
    let d = Distribution::Uniform(Uniform::new(4, 5));
    for _ in 0..10 {
        assert_eq!(d.sample(), 4);
    }
}

#[test]
fn empty_uniform_range_rejected_at_registration() {
    let mut builder = TurtleLSystemBuilder::new();
    let err = builder.token(
        String::from("r"),
        TurtleAction::StochasticRotate(Distribution::Uniform(Uniform::new(5, 5))),
    );
    assert!(matches!(err, Err(LSystemError::EmptyRange)));
}

#[test]
fn stochastic_forward_stays_in_range() {
    let mut builder = TurtleLSystemBuilder::new();
    builder
        .token(
            String::from("F"),
            TurtleAction::StochasticForward(Distribution::Uniform(Uniform::new(3, 6))),
        )
        .unwrap();
    builder.initial("F F F F").unwrap();
    let (system, renderer) = builder.finish().unwrap();
    let steps = renderer.resolve(&system).unwrap();
    assert_eq!(steps.len(), 4);
    for step in steps.iter() {
        match step {
            PathStep::Forward { heading, distance } => {
                assert_eq!(*heading, 0);
                assert!((3..6).contains(distance));
            }
            _ => panic!("expected a forward step"),
        }
    }
}

#[test]
fn stochastic_rotate_folds_a_fresh_in_range_amount() {
    let mut builder = TurtleLSystemBuilder::new();
    builder
        .token(
            String::from("r"),
            TurtleAction::StochasticRotate(Distribution::Uniform(Uniform::new(10, 20))),
        )
        .unwrap();
    builder
        .token(String::from("F"), TurtleAction::Forward(5))
        .unwrap();
    builder.initial("r F").unwrap();
    let (system, renderer) = builder.finish().unwrap();
    let steps = renderer.resolve(&system).unwrap();
    assert_eq!(steps.len(), 1);
    match steps[0] {
        PathStep::Forward { heading, distance } => {
            assert!((10..20).contains(&heading));
            assert_eq!(distance, 5);
        }
        _ => panic!("expected a forward step"),
    }
}

#[test]
fn resolve_moves_checks_the_move_count() {
    let steps = vec![
        PathStep::Forward {
            heading: 0,
            distance: 5,
        },
        PathStep::Push,
        PathStep::Pop,
    ];
    assert!(resolve_moves(&steps, &vec![]).is_none());
    assert!(resolve_moves(&steps, &vec![(5, 0), (1, 1)]).is_none());
    let resolved = resolve_moves(&steps, &vec![(5, 0)]).unwrap();
    assert_eq!(resolved.len(), 3);
}

#[test]
fn trace_reports_coordinate_overflow() {
    let steps = vec![
        dcc_lsystem::ResolvedStep::Move {
            dx: i32::MAX,
            dy: 0,
        },
        dcc_lsystem::ResolvedStep::Move { dx: 1, dy: 0 },
    ];
    let err = trace(&steps);
    assert!(matches!(err, Err(LSystemError::CoordinateOverflow)));
}
