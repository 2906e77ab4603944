use sm::emitter::{compile, CompiledMachine};
use sm::Machine;
use sm::machine::{eval_machine, Instance, MachineError};
use sm::model::{MachineSpec, ResourceParam, TransitionDecl};
use sm::parser::{parse, Token};

fn name(s: &str) -> Vec<u8> {
    s.as_bytes().to_vec()
}

fn id(s: &str) -> Token {
    Token::Ident(s.as_bytes().to_vec())
}

fn trans(event: &str, from: &str, to: &str) -> TransitionDecl {
    TransitionDecl { event: name(event), from: name(from), to: name(to) }
}

fn lock() -> CompiledMachine {
    compile(&MachineSpec {
        name: name("Lock"),
        transitions: vec![
            trans("TurnKey", "Locked", "Unlocked"),
            trans("TurnKey", "Unlocked", "Locked"),
            trans("Break", "Locked", "Broken"),
            trans("Break", "Unlocked", "Broken"),
        ],
        initial_states: vec![name("Locked")],
        guard_resources: Vec::new(),
        action_resources: Vec::new(),
    })
}

#[test]
fn new_instance_reads_back_its_initial_state() {
    let cm = lock();
    let inst = Instance::new(&cm, name("Locked")).unwrap();
    assert_eq!(inst.current_state(), name("Locked"));
    assert_eq!(inst.trigger(), None);
}

#[test]
fn new_instance_rejects_a_state_not_declared_initial() {
    let cm = lock();
    assert_eq!(Instance::new(&cm, name("Broken")).unwrap_err(), MachineError::NotAnInitialState);
    assert_eq!(Instance::new(&cm, name("Elsewhere")).unwrap_err(), MachineError::NotAnInitialState);
}

#[test]
fn lock_end_to_end() {
    let cm = lock();
    let inst = Instance::new(&cm, name("Locked")).unwrap();
    let inst = inst.transition(&cm, name("TurnKey")).unwrap();
    assert_eq!(inst.current_state(), name("Unlocked"));
    let inst = inst.transition(&cm, name("TurnKey")).unwrap();
    assert_eq!(inst.current_state(), name("Locked"));
    assert_eq!(inst.trigger(), Some(name("TurnKey")));
    let inst = inst.transition(&cm, name("Break")).unwrap();
    assert_eq!(inst.current_state(), name("Broken"));
    assert!(cm.terminal_states.contains(&name("Broken")));
}

#[test]
fn broken_lock_rejects_turn_key() {
    let cm = lock();
    let inst = Instance::new(&cm, name("Locked")).unwrap();
    let inst = inst.transition(&cm, name("Break")).unwrap();
    assert_eq!(inst.current_state(), name("Broken"));
    let err = inst.transition(&cm, name("TurnKey")).unwrap_err();
    assert_eq!(err, MachineError::UnsupportedTransition);
}

#[test]
fn undeclared_event_is_rejected() {
    let cm = lock();
    let inst = Instance::new(&cm, name("Locked")).unwrap();
    let err = inst.transition(&cm, name("Melt")).unwrap_err();
    assert_eq!(err, MachineError::UnsupportedTransition);
}

#[test]
fn instance_converts_to_its_variant() {
    let cm = lock();
    let inst = Instance::new(&cm, name("Locked")).unwrap();
    let k = inst.as_enum(&cm).unwrap();
    assert_eq!(cm.variants[k].tag, name("InitialLocked"));
    let inst = inst.transition(&cm, name("TurnKey")).unwrap();
    let k = inst.as_enum(&cm).unwrap();
    assert_eq!(cm.variants[k].tag, name("UnlockedByTurnKey"));
}

#[test]
fn guarded_dispatch_follows_the_guard_outcome() {
    // Guard resources `(a: bool)`, one event Coin with
    // `is_enabled(a) = a`, one candidate transition on Coin.
    let cm = compile(&MachineSpec {
        name: name("Gate"),
        transitions: vec![trans("Coin", "Idle", "Done")],
        initial_states: vec![name("Idle")],
        guard_resources: vec![ResourceParam { name: name("a"), ty: name("bool") }],
        action_resources: Vec::new(),
    });
    assert_eq!(cm.events, vec![name("Coin")]);

    let a = false;
    let inst = Instance::new(&cm, name("Idle")).unwrap();
    let (inst2, action) = eval_machine(&cm, inst, &vec![a]);
    assert_eq!(inst2.current_state(), name("Idle"));
    assert_eq!(inst2.trigger(), None);
    assert_eq!(action, None);

    let a = true;
    let (inst3, action) = eval_machine(&cm, inst2, &vec![a]);
    assert_eq!(inst3.current_state(), name("Done"));
    assert_eq!(inst3.trigger(), Some(name("Coin")));
    assert_eq!(action, Some(name("Coin")));
}

#[test]
fn first_declared_transition_wins_when_both_guards_hold() {
    let cm = compile(&MachineSpec {
        name: name("Pick"),
        transitions: vec![trans("A", "Start", "Left"), trans("B", "Start", "Right")],
        initial_states: vec![name("Start")],
        guard_resources: Vec::new(),
        action_resources: Vec::new(),
    });
    assert_eq!(cm.events, vec![name("A"), name("B")]);
    let inst = Instance::new(&cm, name("Start")).unwrap();
    let (inst, action) = eval_machine(&cm, inst, &vec![true, true]);
    assert_eq!(inst.current_state(), name("Left"));
    assert_eq!(action, Some(name("A")));
}

#[test]
fn evaluating_a_terminal_state_passes_through() {
    let cm = lock();
    let inst = Instance::new(&cm, name("Locked")).unwrap();
    let inst = inst.transition(&cm, name("Break")).unwrap();
    let (inst, action) = eval_machine(&cm, inst, &vec![true, true]);
    assert_eq!(inst.current_state(), name("Broken"));
    assert_eq!(inst.trigger(), Some(name("Break")));
    assert_eq!(action, None);
}

#[test]
fn machine_capability_reads_the_current_state() {
    let cm = lock();
    let inst = Instance::new(&cm, name("Locked")).unwrap();
    assert_eq!(inst.state(), name("Locked"));
}

#[test]
fn pipeline_from_tokens_to_running_machine() {
    // Lock { InitialStates { Locked }
    //        TurnKey { Locked => Unlocked  Unlocked => Locked }
    //        Break { Locked, Unlocked => Broken } }
    let toks = vec![
        id("Lock"),
        Token::LBrace,
        id("InitialStates"),
        Token::LBrace,
        id("Locked"),
        Token::RBrace,
        id("TurnKey"),
        Token::LBrace,
        id("Locked"),
        Token::FatArrow,
        id("Unlocked"),
        id("Unlocked"),
        Token::FatArrow,
        id("Locked"),
        Token::RBrace,
        id("Break"),
        Token::LBrace,
        id("Locked"),
        Token::Comma,
        id("Unlocked"),
        Token::FatArrow,
        id("Broken"),
        Token::RBrace,
        Token::RBrace,
    ];
    let machines = parse(&toks).unwrap();
    assert_eq!(machines.len(), 1);
    let compiled = sm::emitter::compile_all(&machines);
    let cm = &compiled[0];
    assert_eq!(cm.states, vec![name("Locked"), name("Unlocked"), name("Broken")]);
    let inst = Instance::new(cm, name("Locked")).unwrap();
    let inst = inst.transition(cm, name("TurnKey")).unwrap();
    assert_eq!(inst.current_state(), name("Unlocked"));
    let inst = inst.transition(cm, name("Break")).unwrap();
    assert_eq!(inst.current_state(), name("Broken"));
    assert_eq!(inst.transition(cm, name("TurnKey")).unwrap_err(), MachineError::UnsupportedTransition);
}
