use sm::analyzer::{events, non_terminal_states, states, terminal_states, variants};
use sm::dispatch::{transitions_from, DispatchKind};
use sm::emitter::{compile, compile_all};
use sm::model::{MachineSpec, ResourceParam, TransitionDecl};

fn name(s: &str) -> Vec<u8> {
    s.as_bytes().to_vec()
}

fn trans(event: &str, from: &str, to: &str) -> TransitionDecl {
    TransitionDecl { event: name(event), from: name(from), to: name(to) }
}

/// The `Lock` machine: `TurnKey { Locked => Unlocked  Unlocked => Locked }`,
/// `Break { Locked, Unlocked => Broken }`, starting from `Locked`.
fn lock_machine() -> MachineSpec {
    MachineSpec {
        name: name("Lock"),
        transitions: vec![
            trans("TurnKey", "Locked", "Unlocked"),
            trans("TurnKey", "Unlocked", "Locked"),
            trans("Break", "Locked", "Broken"),
            trans("Break", "Unlocked", "Broken"),
        ],
        initial_states: vec![name("Locked")],
        guard_resources: Vec::new(),
        action_resources: Vec::new(),
    }
}

#[test]
fn lock_state_set_is_endpoints_and_initials_without_duplicates() {
    let m = lock_machine();
    assert_eq!(states(&m), vec![name("Locked"), name("Unlocked"), name("Broken")]);
}

#[test]
fn lock_terminal_and_non_terminal_states_partition_the_state_set() {
    let m = lock_machine();
    let non_terminal = non_terminal_states(&m);
    let terminal = terminal_states(&m);
    assert_eq!(non_terminal, vec![name("Locked"), name("Unlocked")]);
    assert_eq!(terminal, vec![name("Broken")]);
    let mut both = non_terminal.clone();
    both.extend(terminal.clone());
    let mut all = states(&m);
    all.sort();
    both.sort();
    assert_eq!(all, both);
    assert!(!non_terminal.contains(&name("Broken")));
    assert!(!terminal.contains(&name("Locked")));
    assert!(!terminal.contains(&name("Unlocked")));
}

#[test]
fn lock_event_set_has_one_entry_per_event_name() {
    let m = lock_machine();
    assert_eq!(events(&m), vec![name("TurnKey"), name("Break")]);
}

#[test]
fn variants_deduplicate_by_tag() {
    // The two `Break` transitions share (Broken, Break): one variant.
    let m = lock_machine();
    let vs = variants(&m);
    let tags: Vec<Vec<u8>> = vs.iter().map(|v| v.tag.clone()).collect();
    assert_eq!(
        tags,
        vec![
            name("InitialLocked"),
            name("UnlockedByTurnKey"),
            name("LockedByTurnKey"),
            name("BrokenByBreak"),
        ]
    );
    let broken = vs.iter().filter(|v| v.tag == name("BrokenByBreak")).count();
    assert_eq!(broken, 1);
    assert_eq!(vs[0].state, name("Locked"));
    assert_eq!(vs[0].event, None);
    assert_eq!(vs[3].state, name("Broken"));
    assert_eq!(vs[3].event, Some(name("Break")));
}

#[test]
fn terminal_state_has_no_candidate_transitions() {
    let m = lock_machine();
    assert!(transitions_from(&m, &name("Broken")).is_empty());
    let from_locked = transitions_from(&m, &name("Locked"));
    assert_eq!(from_locked.len(), 2);
    assert_eq!(from_locked[0].event, name("TurnKey"));
    assert_eq!(from_locked[1].event, name("Break"));
}

#[test]
fn test_machine_to_tokens() {
    // The TurnStile machine: initial states Unlocked and Locked, one
    // transition `Push { Unlocked => Locked }`, guard resource `a: u8`,
    // action resource `b: u16`.
    let m = MachineSpec {
        name: name("TurnStile"),
        transitions: vec![trans("Push", "Unlocked", "Locked")],
        initial_states: vec![name("Unlocked"), name("Locked")],
        guard_resources: vec![ResourceParam { name: name("a"), ty: name("u8") }],
        action_resources: vec![ResourceParam { name: name("b"), ty: name("u16") }],
    };
    let cm = compile(&m);
    assert_eq!(cm.name, name("TurnStile"));
    assert_eq!(cm.states, vec![name("Unlocked"), name("Locked")]);
    assert_eq!(cm.events, vec![name("Push")]);
    assert_eq!(cm.non_terminal_states, vec![name("Unlocked")]);
    assert_eq!(cm.terminal_states, vec![name("Locked")]);
    assert_eq!(cm.guard_resources.len(), 1);
    assert_eq!(cm.guard_resources[0].name, name("a"));
    assert_eq!(cm.action_resources[0].ty, name("u16"));

    // The variant enumeration, in declaration order.
    let tags: Vec<Vec<u8>> = cm.variants.iter().map(|v| v.tag.clone()).collect();
    assert_eq!(
        tags,
        vec![name("InitialUnlocked"), name("InitialLocked"), name("LockedByPush")]
    );
    assert_eq!(cm.variants[0].event, None);
    assert_eq!(cm.variants[2].event, Some(name("Push")));

    // One dispatch arm per variant: a guard chain for the non-terminal
    // Unlocked, pass-throughs for the terminal Locked.
    assert_eq!(cm.dispatch.len(), 3);
    assert_eq!(cm.dispatch[0].variant.tag, name("InitialUnlocked"));
    match &cm.dispatch[0].kind {
        DispatchKind::Guarded(cands) => {
            assert_eq!(cands.len(), 1);
            assert_eq!(cands[0].event, name("Push"));
            assert_eq!(cands[0].to, name("Locked"));
        },
        DispatchKind::PassThrough => panic!("expected a guard chain for Unlocked"),
    }
    assert!(matches!(cm.dispatch[1].kind, DispatchKind::PassThrough));
    assert!(matches!(cm.dispatch[2].kind, DispatchKind::PassThrough));
}

#[test]
fn variants_of_one_state_are_its_enumeration_cases() {
    let m = lock_machine();
    let of_broken = sm::analyzer::variants_of(&m, &name("Broken"));
    assert_eq!(of_broken.len(), 1);
    assert_eq!(of_broken[0].tag, name("BrokenByBreak"));
    let of_locked = sm::analyzer::variants_of(&m, &name("Locked"));
    let tags: Vec<Vec<u8>> = of_locked.iter().map(|v| v.tag.clone()).collect();
    assert_eq!(tags, vec![name("InitialLocked"), name("LockedByTurnKey")]);
}

#[test]
fn compile_all_compiles_each_machine_in_order() {
    let ms = vec![
        lock_machine(),
        MachineSpec {
            name: name("Other"),
            transitions: vec![trans("Go", "A", "B")],
            initial_states: vec![name("A")],
            guard_resources: Vec::new(),
            action_resources: Vec::new(),
        },
    ];
    let compiled = compile_all(&ms);
    assert_eq!(compiled.len(), 2);
    assert_eq!(compiled[0].name, name("Lock"));
    assert_eq!(compiled[1].name, name("Other"));
    assert_eq!(compiled[1].states, vec![name("A"), name("B")]);
    assert_eq!(compiled[1].terminal_states, vec![name("B")]);
}
