use dcc_lsystem::{Arena, ArenaId, LSystemBuilder, LSystemError};

#[test]
fn algae_generations() {
    let mut builder = LSystemBuilder::new();
    let a = builder.token(String::from("A")).unwrap();
    let b = builder.token(String::from("B")).unwrap();
    builder.initial(vec![a]).unwrap();
    builder.transformation_rule(a, vec![a, b]).unwrap();
    builder.transformation_rule(b, vec![a]).unwrap();
    let mut system = builder.finish().unwrap();

    assert_eq!(system.render(), "A");
    system.step();
    assert_eq!(system.render(), "AB");
    system.step();
    assert_eq!(system.render(), "ABA");
    system.step_by(5);
    assert_eq!(system.render(), "ABAABABAABAABABAABABAABAABABAABAAB");
}

#[test]
fn step_composition_matches_single_run() {
    let build = || {
        let mut builder = LSystemBuilder::new();
        let a = builder.token(String::from("A")).unwrap();
        let b = builder.token(String::from("B")).unwrap();
        builder.initial(vec![a, b]).unwrap();
        builder.transformation_rule(a, vec![a, b]).unwrap();
        builder.transformation_rule(b, vec![a]).unwrap();
        builder.finish().unwrap()
    };
    let mut once = build();
    once.step_by(6);
    let mut split = build();
    split.step_by(2);
    split.step_by(4);
    assert_eq!(once.render(), split.render());
}

#[test]
fn determinism_repeated_runs() {
    let run = || {
        let mut builder = LSystemBuilder::new();
        let x = builder.token(String::from("X")).unwrap();
        let f = builder.token(String::from("F")).unwrap();
        builder.initial(vec![x]).unwrap();
        builder.transformation_rule(x, vec![f, x, f]).unwrap();
        let mut system = builder.finish().unwrap();
        system.step_by(5);
        system.render()
    };
    assert_eq!(run(), run());
}

#[test]
fn terminal_tokens_are_fixed_points() {
    let mut builder = LSystemBuilder::new();
    let a = builder.token(String::from("A")).unwrap();
    let b = builder.token(String::from("B")).unwrap();
    builder.initial(vec![b, a, b]).unwrap();
    builder.transformation_rule(a, vec![a, a]).unwrap();
    let mut system = builder.finish().unwrap();
    system.step();
    // B carries no rule: it stays, in place, around the expanded A.
    assert_eq!(system.render(), "BAAB");
    let mut only_terminals = LSystemBuilder::new();
    let c = only_terminals.token(String::from("C")).unwrap();
    let d = only_terminals.token(String::from("D")).unwrap();
    only_terminals.initial(vec![c, d, c]).unwrap();
    let mut system2 = only_terminals.finish().unwrap();
    system2.step();
    assert_eq!(system2.render(), "CDC");
}

#[test]
fn duplicate_token_rejected_without_mutation() {
    let mut builder = LSystemBuilder::new();
    let a = builder.token(String::from("A")).unwrap();
    assert_eq!(a.index, 0);
    let err = builder.token(String::from("A"));
    assert!(matches!(err, Err(LSystemError::DuplicateToken(_))));
    // The arena still holds exactly one name: the next handle is 1.
    let b = builder.token(String::from("B")).unwrap();
    assert_eq!(b.index, 1);
}

#[test]
fn unknown_token_in_rule_rejected() {
    let mut builder = LSystemBuilder::new();
    let a = builder.token(String::from("A")).unwrap();
    let ghost = ArenaId { index: 7 };
    let err = builder.transformation_rule(a, vec![ghost]);
    assert!(matches!(err, Err(LSystemError::UnknownToken(t)) if t.index == 7));
    let err = builder.transformation_rule(ghost, vec![a]);
    assert!(matches!(err, Err(LSystemError::UnknownToken(t)) if t.index == 7));
}

#[test]
fn unknown_token_in_initial_rejected() {
    let mut builder = LSystemBuilder::new();
    let _a = builder.token(String::from("A")).unwrap();
    let err = builder.initial(vec![ArenaId { index: 3 }]);
    assert!(matches!(err, Err(LSystemError::UnknownToken(t)) if t.index == 3));
}

#[test]
fn empty_initial_rejected() {
    let mut builder = LSystemBuilder::new();
    let _a = builder.token(String::from("A")).unwrap();
    let err = builder.initial(vec![]);
    assert!(matches!(err, Err(LSystemError::EmptyInitialState)));
    let builder2 = LSystemBuilder::new();
    assert!(matches!(
        builder2.finish(),
        Err(LSystemError::EmptyInitialState)
    ));
}

#[test]
fn rule_overwrite_last_wins() {
    let mut builder = LSystemBuilder::new();
    let a = builder.token(String::from("A")).unwrap();
    let b = builder.token(String::from("B")).unwrap();
    builder.initial(vec![a]).unwrap();
    builder.transformation_rule(a, vec![a, a]).unwrap();
    builder.transformation_rule(a, vec![b]).unwrap();
    let mut system = builder.finish().unwrap();
    system.step();
    assert_eq!(system.render(), "B");
}

#[test]
fn empty_replacement_erases_token() {
    let mut builder = LSystemBuilder::new();
    let a = builder.token(String::from("A")).unwrap();
    let b = builder.token(String::from("B")).unwrap();
    builder.initial(vec![a, b, a]).unwrap();
    builder.transformation_rule(b, vec![]).unwrap();
    let mut system = builder.finish().unwrap();
    system.step();
    assert_eq!(system.render(), "AA");
}

#[test]
fn arena_lookup_round_trip() {
    let mut arena = Arena::new();
    let a = arena.register(String::from("apple")).unwrap();
    let b = arena.register(String::from("pear")).unwrap();
    assert_eq!(arena.len(), 2);
    assert!(arena.contains(a));
    assert!(arena.contains(b));
    assert!(!arena.contains(ArenaId { index: 2 }));
    assert_eq!(arena.name_of(a).unwrap(), "apple");
    assert_eq!(arena.name_of(b).unwrap(), "pear");
    assert!(arena.name_of(ArenaId { index: 9 }).is_none());
    assert_eq!(arena.find(&String::from("pear")), Some(b));
    assert_eq!(arena.find(&String::from("plum")), None);
}
