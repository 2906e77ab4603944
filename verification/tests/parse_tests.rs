use sm::parser::{parse, Expected, Token};

fn id(s: &str) -> Token {
    Token::Ident(s.as_bytes().to_vec())
}

fn name(s: &str) -> Vec<u8> {
    s.as_bytes().to_vec()
}

fn turnstile_tokens() -> Vec<Token> {
    vec![
        id("TurnStile"),
        Token::LBrace,
        id("GuardResources"),
        Token::LBrace,
        id("a"),
        Token::Colon,
        id("u8"),
        Token::RBrace,
        id("ActionResources"),
        Token::LBrace,
        id("b"),
        Token::Colon,
        id("u16"),
        Token::RBrace,
        id("InitialStates"),
        Token::LBrace,
        id("Locked"),
        Token::Comma,
        id("Unlocked"),
        Token::RBrace,
        id("Coin"),
        Token::LBrace,
        id("Locked"),
        Token::FatArrow,
        id("Unlocked"),
        Token::RBrace,
        id("Push"),
        Token::LBrace,
        id("Unlocked"),
        Token::FatArrow,
        id("Locked"),
        Token::RBrace,
        Token::RBrace,
    ]
}

#[test]
fn test_machine_parse() {
    let machines = parse(&turnstile_tokens()).unwrap();
    assert_eq!(machines.len(), 1);
    let m = &machines[0];
    assert_eq!(m.name, name("TurnStile"));
    assert_eq!(m.guard_resources.len(), 1);
    assert_eq!(m.guard_resources[0].name, name("a"));
    assert_eq!(m.guard_resources[0].ty, name("u8"));
    assert_eq!(m.action_resources.len(), 1);
    assert_eq!(m.action_resources[0].name, name("b"));
    assert_eq!(m.action_resources[0].ty, name("u16"));
    assert_eq!(m.initial_states, vec![name("Locked"), name("Unlocked")]);
    assert_eq!(m.transitions.len(), 2);
    assert_eq!(m.transitions[0].event, name("Coin"));
    assert_eq!(m.transitions[0].from, name("Locked"));
    assert_eq!(m.transitions[0].to, name("Unlocked"));
    assert_eq!(m.transitions[1].event, name("Push"));
    assert_eq!(m.transitions[1].from, name("Unlocked"));
    assert_eq!(m.transitions[1].to, name("Locked"));
}

#[test]
fn parse_empty_input_gives_no_machines() {
    let machines = parse(&Vec::new()).unwrap();
    assert!(machines.is_empty());
}

#[test]
fn parse_two_machines_in_sequence() {
    let mut toks = vec![
        id("First"),
        Token::LBrace,
        id("Go"),
        Token::LBrace,
        id("A"),
        Token::FatArrow,
        id("B"),
        Token::RBrace,
        Token::RBrace,
    ];
    toks.extend(vec![
        id("Second"),
        Token::LBrace,
        id("InitialStates"),
        Token::LBrace,
        id("S"),
        Token::RBrace,
        Token::RBrace,
    ]);
    let machines = parse(&toks).unwrap();
    assert_eq!(machines.len(), 2);
    assert_eq!(machines[0].name, name("First"));
    assert_eq!(machines[1].name, name("Second"));
    assert_eq!(machines[1].initial_states, vec![name("S")]);
}

#[test]
fn parse_shared_from_states_expand_to_one_transition_each() {
    let toks = vec![
        id("Lock"),
        Token::LBrace,
        id("Break"),
        Token::LBrace,
        id("Locked"),
        Token::Comma,
        id("Unlocked"),
        Token::FatArrow,
        id("Broken"),
        Token::RBrace,
        Token::RBrace,
    ];
    let machines = parse(&toks).unwrap();
    let m = &machines[0];
    assert_eq!(m.transitions.len(), 2);
    assert_eq!(m.transitions[0].from, name("Locked"));
    assert_eq!(m.transitions[1].from, name("Unlocked"));
    assert_eq!(m.transitions[0].to, name("Broken"));
    assert_eq!(m.transitions[1].to, name("Broken"));
    assert_eq!(m.transitions[0].event, name("Break"));
}

#[test]
fn parse_missing_machine_body_is_rejected() {
    let toks = vec![id("Foo")];
    let e = parse(&toks).unwrap_err();
    assert_eq!(e.expected, Expected::MachineBody);
    assert_eq!(e.at, 1);
}

#[test]
fn parse_machine_name_must_be_identifier() {
    let toks = vec![Token::LBrace];
    let e = parse(&toks).unwrap_err();
    assert_eq!(e.expected, Expected::MachineName);
    assert_eq!(e.at, 0);
}

#[test]
fn parse_empty_machine_is_rejected() {
    let toks = vec![id("Foo"), Token::LBrace, Token::RBrace];
    let e = parse(&toks).unwrap_err();
    assert_eq!(e.expected, Expected::InitialStateOrTransition);
    assert_eq!(e.at, 2);
}

#[test]
fn parse_resource_without_colon_is_rejected() {
    let toks = vec![
        id("Foo"),
        Token::LBrace,
        id("GuardResources"),
        Token::LBrace,
        id("a"),
        id("u8"),
        Token::RBrace,
        Token::RBrace,
    ];
    let e = parse(&toks).unwrap_err();
    assert_eq!(e.expected, Expected::ResourceColon);
    assert_eq!(e.at, 5);
}

#[test]
fn parse_event_block_needs_a_line() {
    let toks = vec![id("Foo"), Token::LBrace, id("E"), Token::LBrace, Token::RBrace, Token::RBrace];
    let e = parse(&toks).unwrap_err();
    assert_eq!(e.expected, Expected::StateName);
    assert_eq!(e.at, 4);
}

#[test]
fn parse_line_needs_target_state() {
    let toks = vec![
        id("Foo"),
        Token::LBrace,
        id("E"),
        Token::LBrace,
        id("A"),
        Token::FatArrow,
        Token::RBrace,
        Token::RBrace,
    ];
    let e = parse(&toks).unwrap_err();
    assert_eq!(e.expected, Expected::TargetState);
    assert_eq!(e.at, 6);
}

#[test]
fn parse_trailing_comma_in_initial_states_is_accepted() {
    let toks = vec![
        id("Foo"),
        Token::LBrace,
        id("InitialStates"),
        Token::LBrace,
        id("A"),
        Token::Comma,
        Token::RBrace,
        Token::RBrace,
    ];
    let machines = parse(&toks).unwrap();
    assert_eq!(machines[0].initial_states, vec![name("A")]);
}

#[test]
fn parse_unclosed_machine_is_rejected() {
    let toks = vec![
        id("Foo"),
        Token::LBrace,
        id("InitialStates"),
        Token::LBrace,
        id("A"),
        Token::RBrace,
    ];
    let e = parse(&toks).unwrap_err();
    assert_eq!(e.expected, Expected::EventOrCloseBrace);
    assert_eq!(e.at, 6);
}

#[test]
fn parse_resource_list_entry_must_start_with_name() {
    let toks = vec![
        id("Foo"),
        Token::LBrace,
        id("GuardResources"),
        Token::LBrace,
        Token::Comma,
        Token::RBrace,
        Token::RBrace,
    ];
    let e = parse(&toks).unwrap_err();
    assert_eq!(e.expected, Expected::ResourceName);
    assert_eq!(e.at, 4);
}

#[test]
fn parse_resource_type_must_be_identifier() {
    let toks = vec![
        id("Foo"),
        Token::LBrace,
        id("GuardResources"),
        Token::LBrace,
        id("a"),
        Token::Colon,
        Token::Comma,
        Token::RBrace,
        Token::RBrace,
    ];
    let e = parse(&toks).unwrap_err();
    assert_eq!(e.expected, Expected::ResourceType);
    assert_eq!(e.at, 6);
}

#[test]
fn parse_keyword_block_needs_open_brace() {
    let toks = vec![id("Foo"), Token::LBrace, id("GuardResources"), id("a"), Token::RBrace];
    let e = parse(&toks).unwrap_err();
    assert_eq!(e.expected, Expected::BlockBody);
    assert_eq!(e.at, 3);
}

#[test]
fn parse_from_states_are_separated_by_commas() {
    let toks = vec![
        id("Foo"),
        Token::LBrace,
        id("E"),
        Token::LBrace,
        id("A"),
        id("B"),
        Token::FatArrow,
        id("C"),
        Token::RBrace,
        Token::RBrace,
    ];
    let e = parse(&toks).unwrap_err();
    assert_eq!(e.expected, Expected::CommaOrFatArrow);
    assert_eq!(e.at, 5);
}

#[test]
fn parse_event_block_line_must_be_followed_by_line_or_close() {
    let toks = vec![
        id("Foo"),
        Token::LBrace,
        id("E"),
        Token::LBrace,
        id("A"),
        Token::FatArrow,
        id("B"),
        Token::Colon,
        Token::RBrace,
        Token::RBrace,
    ];
    let e = parse(&toks).unwrap_err();
    assert_eq!(e.expected, Expected::StateOrCloseBrace);
    assert_eq!(e.at, 7);
}

#[test]
fn parse_initial_states_are_separated_by_commas() {
    let toks = vec![
        id("Foo"),
        Token::LBrace,
        id("InitialStates"),
        Token::LBrace,
        id("A"),
        id("B"),
        Token::RBrace,
        Token::RBrace,
    ];
    let e = parse(&toks).unwrap_err();
    assert_eq!(e.expected, Expected::CommaOrCloseBrace);
    assert_eq!(e.at, 5);
}
