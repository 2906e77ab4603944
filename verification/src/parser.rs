//! The parser: turns the token stream of one or more machine blocks
//! into machine definitions, or rejects malformed input with an error
//! naming the expected construct and the offending token position.
//!
//! Grammar, order-sensitive:
//!
//! ```text
//! MachineBlock := Identifier '{' GuardBlock? ActionBlock? InitialBlock? EventBlock* '}'
//! GuardBlock   := 'GuardResources' '{' (Identifier ':' Identifier),* '}'
//! ActionBlock  := 'ActionResources' '{' (Identifier ':' Identifier),* '}'
//! InitialBlock := 'InitialStates' '{' Identifier,* '}'
//! EventBlock   := Identifier '{' (Identifier,+ '=>' Identifier)+ '}'
//! ```
//!
//! A trailing comma is accepted inside the brace of a resource or
//! initial-state list.  A machine block that declares neither a
//! transition nor an initial state is rejected.  The same event name
//! may head several blocks; each `from => to` line counts
//! independently.  No partial definition is produced on error.
//!
//! The meaning of the grammar is fixed by the `spec_parse_*` functions
//! below; each executable parser returns exactly what they describe.

use vstd::prelude::*;
use crate::model::{MachineSpec, MachineModel, TransModel, TransitionDecl, ResModel, ResourceParam};
use crate::model::{bytes_eq, copy_name, lemma_deep_view_push, lemma_byte_vec_deep_view};

verus! {

/// One token of the machine description language.  Producing tokens
/// from text is the host's concern; the grammar starts here.
#[derive(Debug)]
pub enum Token {
    /// A name: a state, an event, a resource, a type or a keyword.
    Ident(Vec<u8>),
    /// `{`
    LBrace,
    /// `}`
    RBrace,
    /// `,`
    Comma,
    /// `:`
    Colon,
    /// `=>`
    FatArrow,
}

/// Mathematical view of a token.
#[verifier::ext_equal]
pub enum TokenModel {
    Ident(Seq<u8>),
    LBrace,
    RBrace,
    Comma,
    Colon,
    FatArrow,
}

impl View for Token {
    type V = TokenModel;

    open spec fn view(&self) -> TokenModel {
        match self {
            Token::Ident(n) => TokenModel::Ident(n@),
            Token::LBrace => TokenModel::LBrace,
            Token::RBrace => TokenModel::RBrace,
            Token::Comma => TokenModel::Comma,
            Token::Colon => TokenModel::Colon,
            Token::FatArrow => TokenModel::FatArrow,
        }
    }
}

impl DeepView for Token {
    type V = TokenModel;

    open spec fn deep_view(&self) -> TokenModel {
        self@
    }
}

/// The construct the parser expected at the reported position.
#[derive(Clone, Copy, Debug, PartialEq, Eq, Structural)]
pub enum Expected {
    /// A machine block's name.
    MachineName,
    /// The `{` opening a machine block.
    MachineBody,
    /// The `{` opening a resource, initial-state or event block.
    BlockBody,
    /// A resource parameter's name, or the `}` closing the list.
    ResourceName,
    /// The `:` between a resource's name and its type.
    ResourceColon,
    /// A resource parameter's type.
    ResourceType,
    /// A `,` before a further list entry, or the `}` closing the list.
    CommaOrCloseBrace,
    /// A state name.
    StateName,
    /// A `,` before a further source state, or the `=>` before the
    /// target state.
    CommaOrFatArrow,
    /// The target state after `=>`.
    TargetState,
    /// A state name starting a further transition line, or the `}`
    /// closing the event block.
    StateOrCloseBrace,
    /// An event block, or the `}` closing the machine block.
    EventOrCloseBrace,
    /// At least one initial state or transition in the machine block.
    InitialStateOrTransition,
}

/// A rejected description: the expected construct and the token
/// position where it was missed.
#[derive(Clone, Copy, Debug, PartialEq, Eq, Structural)]
pub struct SyntaxError {
    pub expected: Expected,
    pub at: usize,
}

/// What a specification-level parse of one construct yields: the
/// parsed value with the position following it, or the expected
/// construct with the position where it was missed.
#[verifier::ext_equal]
pub enum Parsed<T> {
    Good { value: T, next: int },
    Bad { expected: Expected, at: int },
}

/// The byte spelling of the keyword `GuardResources`.
pub open spec fn kw_guard_resources() -> Seq<u8> {
    seq![71u8, 117u8, 97u8, 114u8, 100u8, 82u8, 101u8, 115u8, 111u8, 117u8, 114u8, 99u8, 101u8, 115u8]
}

/// The byte spelling of the keyword `ActionResources`.
pub open spec fn kw_action_resources() -> Seq<u8> {
    seq![65u8, 99u8, 116u8, 105u8, 111u8, 110u8, 82u8, 101u8, 115u8, 111u8, 117u8, 114u8, 99u8, 101u8, 115u8]
}

/// The byte spelling of the keyword `InitialStates`.
pub open spec fn kw_initial_states() -> Seq<u8> {
    seq![73u8, 110u8, 105u8, 116u8, 105u8, 97u8, 108u8, 83u8, 116u8, 97u8, 116u8, 101u8, 115u8]
}

/// Parses `(Identifier ':' Identifier),* '}'`: the entries of a
/// resource block, after its opening brace, up to and including its
/// closing brace.  A trailing comma is accepted.
pub open spec fn spec_parse_resource_list(toks: Seq<TokenModel>, i: int) -> Parsed<Seq<ResModel>>
    decreases toks.len() - i,
{
    if !(0 <= i < toks.len()) {
        Parsed::Bad { expected: Expected::ResourceName, at: i }
    } else {
        match toks[i] {
            TokenModel::RBrace => Parsed::Good { value: Seq::empty(), next: i + 1 },
            TokenModel::Ident(name) => {
                if !(i + 1 < toks.len() && toks[i + 1] == TokenModel::Colon) {
                    Parsed::Bad { expected: Expected::ResourceColon, at: i + 1 }
                } else if !(i + 2 < toks.len() && toks[i + 2] is Ident) {
                    Parsed::Bad { expected: Expected::ResourceType, at: i + 2 }
                } else {
                    let entry = ResModel { name, ty: toks[i + 2]->Ident_0 };
                    if !(i + 3 < toks.len()) {
                        Parsed::Bad { expected: Expected::CommaOrCloseBrace, at: i + 3 }
                    } else if toks[i + 3] == TokenModel::RBrace {
                        Parsed::Good { value: seq![entry], next: i + 4 }
                    } else if toks[i + 3] == TokenModel::Comma {
                        match spec_parse_resource_list(toks, i + 4) {
                            Parsed::Good { value, next } => Parsed::Good {
                                value: seq![entry] + value,
                                next,
                            },
                            Parsed::Bad { expected, at } => Parsed::Bad { expected, at },
                        }
                    } else {
                        Parsed::Bad { expected: Expected::CommaOrCloseBrace, at: i + 3 }
                    }
                }
            },
            _ => Parsed::Bad { expected: Expected::ResourceName, at: i },
        }
    }
}

/// Parses `Identifier,* '}'`: the entries of an initial-state block,
/// after its opening brace, up to and including its closing brace.  A
/// trailing comma is accepted.
pub open spec fn spec_parse_name_list(toks: Seq<TokenModel>, i: int) -> Parsed<Seq<Seq<u8>>>
    decreases toks.len() - i,
{
    if !(0 <= i < toks.len()) {
        Parsed::Bad { expected: Expected::StateName, at: i }
    } else {
        match toks[i] {
            TokenModel::RBrace => Parsed::Good { value: Seq::empty(), next: i + 1 },
            TokenModel::Ident(name) => {
                if !(i + 1 < toks.len()) {
                    Parsed::Bad { expected: Expected::CommaOrCloseBrace, at: i + 1 }
                } else if toks[i + 1] == TokenModel::RBrace {
                    Parsed::Good { value: seq![name], next: i + 2 }
                } else if toks[i + 1] == TokenModel::Comma {
                    match spec_parse_name_list(toks, i + 2) {
                        Parsed::Good { value, next } => Parsed::Good {
                            value: seq![name] + value,
                            next,
                        },
                        Parsed::Bad { expected, at } => Parsed::Bad { expected, at },
                    }
                } else {
                    Parsed::Bad { expected: Expected::CommaOrCloseBrace, at: i + 1 }
                }
            },
            _ => Parsed::Bad { expected: Expected::StateName, at: i },
        }
    }
}

/// Parses `Identifier (',' Identifier)* '=>'`: the source states of
/// one transition line, up to and including the arrow.
pub open spec fn spec_parse_from_list(toks: Seq<TokenModel>, i: int) -> Parsed<Seq<Seq<u8>>>
    decreases toks.len() - i,
{
    if !(0 <= i < toks.len() && toks[i] is Ident) {
        Parsed::Bad { expected: Expected::StateName, at: i }
    } else {
        let name = toks[i]->Ident_0;
        if !(i + 1 < toks.len()) {
            Parsed::Bad { expected: Expected::CommaOrFatArrow, at: i + 1 }
        } else if toks[i + 1] == TokenModel::FatArrow {
            Parsed::Good { value: seq![name], next: i + 2 }
        } else if toks[i + 1] == TokenModel::Comma {
            match spec_parse_from_list(toks, i + 2) {
                Parsed::Good { value, next } => Parsed::Good { value: seq![name] + value, next },
                Parsed::Bad { expected, at } => Parsed::Bad { expected, at },
            }
        } else {
            Parsed::Bad { expected: Expected::CommaOrFatArrow, at: i + 1 }
        }
    }
}

/// Parses one transition line `Identifier,+ '=>' Identifier` of the
/// event block headed by `event`: one transition per source state, in
/// source order, all sharing the line's target and the block's event.
pub open spec fn spec_parse_line(toks: Seq<TokenModel>, i: int, event: Seq<u8>) -> Parsed<
    Seq<TransModel>,
>
    decreases toks.len() - i, 1int,
{
    match spec_parse_from_list(toks, i) {
        Parsed::Bad { expected, at } => Parsed::Bad { expected, at },
        Parsed::Good { value: froms, next: j } => {
            if !(j < toks.len() && toks[j] is Ident) {
                Parsed::Bad { expected: Expected::TargetState, at: j }
            } else {
                let to = toks[j]->Ident_0;
                Parsed::Good {
                    value: froms.map_values(|f: Seq<u8>| TransModel { event, from: f, to }),
                    next: j + 1,
                }
            }
        },
    }
}

/// Parses the one or more transition lines of an event block, up to
/// and including its closing brace.
pub open spec fn spec_parse_lines(toks: Seq<TokenModel>, i: int, event: Seq<u8>) -> Parsed<
    Seq<TransModel>,
>
    decreases toks.len() - i, 2int,
{
    match spec_parse_line(toks, i, event) {
        Parsed::Bad { expected, at } => Parsed::Bad { expected, at },
        Parsed::Good { value: ts, next: j } => {
            if !(i < j <= toks.len()) {
                Parsed::Bad { expected: Expected::StateOrCloseBrace, at: j }
            } else if !(j < toks.len()) {
                Parsed::Bad { expected: Expected::StateOrCloseBrace, at: j }
            } else if toks[j] == TokenModel::RBrace {
                Parsed::Good { value: ts, next: j + 1 }
            } else if toks[j] is Ident {
                match spec_parse_lines(toks, j, event) {
                    Parsed::Good { value: ts2, next: k } => Parsed::Good {
                        value: ts + ts2,
                        next: k,
                    },
                    Parsed::Bad { expected, at } => Parsed::Bad { expected, at },
                }
            } else {
                Parsed::Bad { expected: Expected::StateOrCloseBrace, at: j }
            }
        },
    }
}

/// Parses one event block `Identifier '{' (line)+ '}'`, yielding its
/// transitions in declaration order.
pub open spec fn spec_parse_event_block(toks: Seq<TokenModel>, i: int) -> Parsed<Seq<TransModel>>
    decreases toks.len() - i, 3int,
{
    if !(0 <= i < toks.len() && toks[i] is Ident) {
        Parsed::Bad { expected: Expected::EventOrCloseBrace, at: i }
    } else {
        let event = toks[i]->Ident_0;
        if !(i + 1 < toks.len() && toks[i + 1] == TokenModel::LBrace) {
            Parsed::Bad { expected: Expected::BlockBody, at: i + 1 }
        } else {
            spec_parse_lines(toks, i + 2, event)
        }
    }
}

/// Parses the event blocks of a machine body, in order, stopping
/// before the machine's closing brace.
pub open spec fn spec_parse_event_blocks(toks: Seq<TokenModel>, i: int) -> Parsed<Seq<TransModel>>
    decreases toks.len() - i, 4int,
{
    if !(0 <= i < toks.len()) {
        Parsed::Bad { expected: Expected::EventOrCloseBrace, at: i }
    } else if toks[i] == TokenModel::RBrace {
        Parsed::Good { value: Seq::empty(), next: i }
    } else if toks[i] is Ident {
        match spec_parse_event_block(toks, i) {
            Parsed::Bad { expected, at } => Parsed::Bad { expected, at },
            Parsed::Good { value: ts, next: j } => {
                if !(i < j <= toks.len()) {
                    Parsed::Bad { expected: Expected::EventOrCloseBrace, at: j }
                } else {
                    match spec_parse_event_blocks(toks, j) {
                        Parsed::Good { value: ts2, next: k } => Parsed::Good {
                            value: ts + ts2,
                            next: k,
                        },
                        Parsed::Bad { expected, at } => Parsed::Bad { expected, at },
                    }
                }
            },
        }
    } else {
        Parsed::Bad { expected: Expected::EventOrCloseBrace, at: i }
    }
}

/// Parses an optional keyword-headed resource block: yields its
/// entries when the keyword is present, the empty list otherwise.
pub open spec fn spec_parse_opt_resources(toks: Seq<TokenModel>, i: int, kw: Seq<u8>) -> Parsed<
    Seq<ResModel>,
>
    decreases toks.len() - i, 5int,
{
    if 0 <= i < toks.len() && toks[i] == TokenModel::Ident(kw) {
        if !(i + 1 < toks.len() && toks[i + 1] == TokenModel::LBrace) {
            Parsed::Bad { expected: Expected::BlockBody, at: i + 1 }
        } else {
            spec_parse_resource_list(toks, i + 2)
        }
    } else {
        Parsed::Good { value: Seq::empty(), next: i }
    }
}

/// Parses an optional `InitialStates` block: yields its entries when
/// the keyword is present, the empty list otherwise.
pub open spec fn spec_parse_opt_initials(toks: Seq<TokenModel>, i: int) -> Parsed<Seq<Seq<u8>>>
    decreases toks.len() - i, 5int,
{
    if 0 <= i < toks.len() && toks[i] == TokenModel::Ident(kw_initial_states()) {
        if !(i + 1 < toks.len() && toks[i + 1] == TokenModel::LBrace) {
            Parsed::Bad { expected: Expected::BlockBody, at: i + 1 }
        } else {
            spec_parse_name_list(toks, i + 2)
        }
    } else {
        Parsed::Good { value: Seq::empty(), next: i }
    }
}

/// Parses one machine block into a machine definition.  A block that
/// declares neither a transition nor an initial state is rejected.
pub open spec fn spec_parse_machine(toks: Seq<TokenModel>, i: int) -> Parsed<MachineModel>
    decreases toks.len() - i, 6int,
{
    if !(0 <= i < toks.len() && toks[i] is Ident) {
        Parsed::Bad { expected: Expected::MachineName, at: i }
    } else {
        let name = toks[i]->Ident_0;
        if !(i + 1 < toks.len() && toks[i + 1] == TokenModel::LBrace) {
            Parsed::Bad { expected: Expected::MachineBody, at: i + 1 }
        } else {
            match spec_parse_opt_resources(toks, i + 2, kw_guard_resources()) {
                Parsed::Bad { expected, at } => Parsed::Bad { expected, at },
                Parsed::Good { value: guards, next: j1 } => {
                    if !(i + 2 <= j1 <= toks.len()) {
                        Parsed::Bad { expected: Expected::EventOrCloseBrace, at: j1 }
                    } else {
                        match spec_parse_opt_resources(toks, j1, kw_action_resources()) {
                            Parsed::Bad { expected, at } => Parsed::Bad { expected, at },
                            Parsed::Good { value: actions, next: j2 } => {
                                if !(j1 <= j2 <= toks.len()) {
                                    Parsed::Bad { expected: Expected::EventOrCloseBrace, at: j2 }
                                } else {
                                    match spec_parse_opt_initials(toks, j2) {
                                        Parsed::Bad { expected, at } => Parsed::Bad {
                                            expected,
                                            at,
                                        },
                                        Parsed::Good { value: initials, next: j3 } => {
                                            if !(j2 <= j3 <= toks.len()) {
                                                Parsed::Bad {
                                                    expected: Expected::EventOrCloseBrace,
                                                    at: j3,
                                                }
                                            } else {
                                                spec_parse_machine_tail(
                                                    toks,
                                                    j3,
                                                    name,
                                                    guards,
                                                    actions,
                                                    initials,
                                                )
                                            }
                                        },
                                    }
                                }
                            },
                        }
                    }
                },
            }
        }
    }
}

/// Parses the event blocks and the closing brace of a machine block,
/// and assembles the definition.
pub open spec fn spec_parse_machine_tail(
    toks: Seq<TokenModel>,
    i: int,
    name: Seq<u8>,
    guards: Seq<ResModel>,
    actions: Seq<ResModel>,
    initials: Seq<Seq<u8>>,
) -> Parsed<MachineModel>
    decreases toks.len() - i, 5int,
{
    match spec_parse_event_blocks(toks, i) {
        Parsed::Bad { expected, at } => Parsed::Bad { expected, at },
        Parsed::Good { value: ts, next: j } => {
            if !(j < toks.len() && toks[j] == TokenModel::RBrace) {
                Parsed::Bad { expected: Expected::EventOrCloseBrace, at: j }
            } else if ts.len() == 0 && initials.len() == 0 {
                Parsed::Bad { expected: Expected::InitialStateOrTransition, at: j }
            } else {
                Parsed::Good {
                    value: MachineModel {
                        name,
                        transitions: ts,
                        initial_states: initials,
                        guard_resources: guards,
                        action_resources: actions,
                    },
                    next: j + 1,
                }
            }
        },
    }
}

/// Parses a sequence of machine blocks until the input is exhausted:
/// one definition per block, with independent namespaces.
pub open spec fn spec_parse_machines(toks: Seq<TokenModel>, i: int) -> Parsed<Seq<MachineModel>>
    decreases toks.len() - i, 7int,
{
    if i >= toks.len() {
        Parsed::Good { value: Seq::empty(), next: i }
    } else {
        match spec_parse_machine(toks, i) {
            Parsed::Bad { expected, at } => Parsed::Bad { expected, at },
            Parsed::Good { value: m, next: j } => {
                if !(i < j <= toks.len()) {
                    Parsed::Bad { expected: Expected::MachineName, at: j }
                } else {
                    match spec_parse_machines(toks, j) {
                        Parsed::Good { value: ms, next: k } => Parsed::Good {
                            value: seq![m] + ms,
                            next: k,
                        },
                        Parsed::Bad { expected, at } => Parsed::Bad { expected, at },
                    }
                }
            },
        }
    }
}

/// A successfully parsed machine block satisfies the definition
/// invariant: it declares a transition or an initial state.
pub proof fn lemma_parsed_machine_wf(toks: Seq<TokenModel>, i: int)
    ensures
        (spec_parse_machine(toks, i) matches Parsed::Good { value, next } ==> value.wf()),
{
    if 0 <= i < toks.len() && toks[i] is Ident && i + 1 < toks.len() && toks[i + 1]
        == TokenModel::LBrace {
        let name = toks[i]->Ident_0;
        match spec_parse_opt_resources(toks, i + 2, kw_guard_resources()) {
            Parsed::Bad { .. } => {},
            Parsed::Good { value: guards, next: j1 } => {
                if i + 2 <= j1 <= toks.len() {
                    match spec_parse_opt_resources(toks, j1, kw_action_resources()) {
                        Parsed::Bad { .. } => {},
                        Parsed::Good { value: actions, next: j2 } => {
                            if j1 <= j2 <= toks.len() {
                                match spec_parse_opt_initials(toks, j2) {
                                    Parsed::Bad { .. } => {},
                                    Parsed::Good { value: initials, next: j3 } => {},
                                }
                            }
                        },
                    }
                }
            },
        }
    }
}

/// Whether the token is `{`.
fn is_lbrace(t: &Token) -> (r: bool)
    ensures
        r == (t@ == TokenModel::LBrace),
{
    match t {
        Token::LBrace => true,
        _ => false,
    }
}

/// Whether the token is `}`.
fn is_rbrace(t: &Token) -> (r: bool)
    ensures
        r == (t@ == TokenModel::RBrace),
{
    match t {
        Token::RBrace => true,
        _ => false,
    }
}

/// Whether the token is `,`.
fn is_comma(t: &Token) -> (r: bool)
    ensures
        r == (t@ == TokenModel::Comma),
{
    match t {
        Token::Comma => true,
        _ => false,
    }
}

/// Whether the token is `:`.
fn is_colon(t: &Token) -> (r: bool)
    ensures
        r == (t@ == TokenModel::Colon),
{
    match t {
        Token::Colon => true,
        _ => false,
    }
}

/// The keyword `GuardResources` as bytes.
fn kw_guard_resources_vec() -> (r: Vec<u8>)
    ensures
        r@ == kw_guard_resources(),
{
    let mut r: Vec<u8> = Vec::new();
    r.push(71u8);
    r.push(117u8);
    r.push(97u8);
    r.push(114u8);
    r.push(100u8);
    r.push(82u8);
    r.push(101u8);
    r.push(115u8);
    r.push(111u8);
    r.push(117u8);
    r.push(114u8);
    r.push(99u8);
    r.push(101u8);
    r.push(115u8);
    proof {
        assert(r@ =~= kw_guard_resources());
    }
    r
}

/// The keyword `ActionResources` as bytes.
fn kw_action_resources_vec() -> (r: Vec<u8>)
    ensures
        r@ == kw_action_resources(),
{
    let mut r: Vec<u8> = Vec::new();
    r.push(65u8);
    r.push(99u8);
    r.push(116u8);
    r.push(105u8);
    r.push(111u8);
    r.push(110u8);
    r.push(82u8);
    r.push(101u8);
    r.push(115u8);
    r.push(111u8);
    r.push(117u8);
    r.push(114u8);
    r.push(99u8);
    r.push(101u8);
    r.push(115u8);
    proof {
        assert(r@ =~= kw_action_resources());
    }
    r
}

/// The keyword `InitialStates` as bytes.
fn kw_initial_states_vec() -> (r: Vec<u8>)
    ensures
        r@ == kw_initial_states(),
{
    let mut r: Vec<u8> = Vec::new();
    r.push(73u8);
    r.push(110u8);
    r.push(105u8);
    r.push(116u8);
    r.push(105u8);
    r.push(97u8);
    r.push(108u8);
    r.push(83u8);
    r.push(116u8);
    r.push(97u8);
    r.push(116u8);
    r.push(101u8);
    r.push(115u8);
    proof {
        assert(r@ =~= kw_initial_states());
    }
    r
}

/// Parses the entries of a resource block, after its opening brace, up
/// to and including its closing brace.
pub fn parse_resource_list(toks: &Vec<Token>, i: usize) -> (r: Result<
    (Vec<ResourceParam>, usize),
    SyntaxError,
>)
    requires
        i <= toks@.len(),
    ensures
        ({
            let s = spec_parse_resource_list(toks.deep_view(), i as int);
            match r {
                Result::Ok(p) => s == (Parsed::Good { value: p.0.deep_view(), next: p.1 as int })
                    && i < p.1 <= toks@.len(),
                Result::Err(e) => s == (Parsed::<Seq<ResModel>>::Bad { expected: e.expected, at: e.at as int })
                    && e.at <= toks@.len(),
            }
        }),
    decreases toks@.len() - i, 0int,
{
    if i >= toks.len() {
        return Result::Err(SyntaxError { expected: Expected::ResourceName, at: i });
    }
    match &toks[i] {
        Token::RBrace => {
            let out: Vec<ResourceParam> = Vec::new();
            proof {
                assert(out.deep_view() =~= Seq::<ResModel>::empty());
            }
            Result::Ok((out, i + 1))
        },
        Token::Ident(name) => {
            if !(i + 1 < toks.len() && is_colon(&toks[i + 1])) {
                return Result::Err(SyntaxError { expected: Expected::ResourceColon, at: i + 1 });
            }
            if i + 2 >= toks.len() {
                return Result::Err(SyntaxError { expected: Expected::ResourceType, at: i + 2 });
            }
            let ty: Vec<u8> = match &toks[i + 2] {
                Token::Ident(t) => copy_name(t),
                _ => {
                    return Result::Err(
                        SyntaxError { expected: Expected::ResourceType, at: i + 2 },
                    );
                },
            };
            let entry = ResourceParam { name: copy_name(name), ty };
            let ghost entry_m = entry@;
            if i + 3 >= toks.len() {
                return Result::Err(
                    SyntaxError { expected: Expected::CommaOrCloseBrace, at: i + 3 },
                );
            }
            if is_rbrace(&toks[i + 3]) {
                let mut out: Vec<ResourceParam> = Vec::new();
                out.push(entry);
                proof {
                    assert(out.deep_view() =~= seq![entry_m]);
                }
                Result::Ok((out, i + 4))
            } else if is_comma(&toks[i + 3]) {
                match parse_resource_list(toks, i + 4) {
                    Result::Ok((rest, next)) => {
                        let ghost rest_m = rest.deep_view();
                        let mut out: Vec<ResourceParam> = Vec::new();
                        out.push(entry);
                        let mut rest2 = rest;
                        out.append(&mut rest2);
                        proof {
                            assert(out.deep_view() =~= seq![entry_m] + rest_m);
                        }
                        Result::Ok((out, next))
                    },
                    Result::Err(e) => Result::Err(e),
                }
            } else {
                Result::Err(SyntaxError { expected: Expected::CommaOrCloseBrace, at: i + 3 })
            }
        },
        _ => Result::Err(SyntaxError { expected: Expected::ResourceName, at: i }),
    }
}

/// Parses the entries of an initial-state block, after its opening
/// brace, up to and including its closing brace.
pub fn parse_name_list(toks: &Vec<Token>, i: usize) -> (r: Result<
    (Vec<Vec<u8>>, usize),
    SyntaxError,
>)
    requires
        i <= toks@.len(),
    ensures
        ({
            let s = spec_parse_name_list(toks.deep_view(), i as int);
            match r {
                Result::Ok(p) => s == (Parsed::Good { value: p.0.deep_view(), next: p.1 as int })
                    && i < p.1 <= toks@.len(),
                Result::Err(e) => s == (Parsed::<Seq<Seq<u8>>>::Bad { expected: e.expected, at: e.at as int })
                    && e.at <= toks@.len(),
            }
        }),
    decreases toks@.len() - i, 0int,
{
    if i >= toks.len() {
        return Result::Err(SyntaxError { expected: Expected::StateName, at: i });
    }
    match &toks[i] {
        Token::RBrace => {
            let out: Vec<Vec<u8>> = Vec::new();
            proof {
                assert(out.deep_view() =~= Seq::<Seq<u8>>::empty());
            }
            Result::Ok((out, i + 1))
        },
        Token::Ident(name) => {
            let entry = copy_name(name);
            let ghost entry_m = entry@;
            proof {
                lemma_byte_vec_deep_view(entry);
            }
            if i + 1 >= toks.len() {
                return Result::Err(
                    SyntaxError { expected: Expected::CommaOrCloseBrace, at: i + 1 },
                );
            }
            if is_rbrace(&toks[i + 1]) {
                let mut out: Vec<Vec<u8>> = Vec::new();
                out.push(entry);
                proof {
                    assert(out.deep_view() =~= seq![entry_m]);
                }
                Result::Ok((out, i + 2))
            } else if is_comma(&toks[i + 1]) {
                match parse_name_list(toks, i + 2) {
                    Result::Ok((rest, next)) => {
                        let ghost rest_m = rest.deep_view();
                        let mut out: Vec<Vec<u8>> = Vec::new();
                        out.push(entry);
                        let mut rest2 = rest;
                        out.append(&mut rest2);
                        proof {
                            assert(out.deep_view() =~= seq![entry_m] + rest_m);
                        }
                        Result::Ok((out, next))
                    },
                    Result::Err(e) => Result::Err(e),
                }
            } else {
                Result::Err(SyntaxError { expected: Expected::CommaOrCloseBrace, at: i + 1 })
            }
        },
        _ => Result::Err(SyntaxError { expected: Expected::StateName, at: i }),
    }
}

/// Parses the source states of one transition line, up to and
/// including the arrow.
pub fn parse_from_list(toks: &Vec<Token>, i: usize) -> (r: Result<
    (Vec<Vec<u8>>, usize),
    SyntaxError,
>)
    requires
        i <= toks@.len(),
    ensures
        ({
            let s = spec_parse_from_list(toks.deep_view(), i as int);
            match r {
                Result::Ok(p) => s == (Parsed::Good { value: p.0.deep_view(), next: p.1 as int })
                    && i < p.1 <= toks@.len(),
                Result::Err(e) => s == (Parsed::<Seq<Seq<u8>>>::Bad { expected: e.expected, at: e.at as int })
                    && e.at <= toks@.len(),
            }
        }),
    decreases toks@.len() - i, 0int,
{
    if i >= toks.len() {
        return Result::Err(SyntaxError { expected: Expected::StateName, at: i });
    }
    match &toks[i] {
        Token::Ident(name) => {
            let entry = copy_name(name);
            let ghost entry_m = entry@;
            proof {
                lemma_byte_vec_deep_view(entry);
            }
            if i + 1 >= toks.len() {
                return Result::Err(SyntaxError { expected: Expected::CommaOrFatArrow, at: i + 1 });
            }
            match &toks[i + 1] {
                Token::FatArrow => {
                    let mut out: Vec<Vec<u8>> = Vec::new();
                    out.push(entry);
                    proof {
                        assert(out.deep_view() =~= seq![entry_m]);
                    }
                    Result::Ok((out, i + 2))
                },
                Token::Comma => match parse_from_list(toks, i + 2) {
                    Result::Ok((rest, next)) => {
                        let ghost rest_m = rest.deep_view();
                        let mut out: Vec<Vec<u8>> = Vec::new();
                        out.push(entry);
                        let mut rest2 = rest;
                        out.append(&mut rest2);
                        proof {
                            assert(out.deep_view() =~= seq![entry_m] + rest_m);
                        }
                        Result::Ok((out, next))
                    },
                    Result::Err(e) => Result::Err(e),
                },
                _ => Result::Err(SyntaxError { expected: Expected::CommaOrFatArrow, at: i + 1 }),
            }
        },
        _ => Result::Err(SyntaxError { expected: Expected::StateName, at: i }),
    }
}

/// Parses one transition line of the event block headed by `event`.
pub fn parse_line(toks: &Vec<Token>, i: usize, event: &Vec<u8>) -> (r: Result<
    (Vec<TransitionDecl>, usize),
    SyntaxError,
>)
    requires
        i <= toks@.len(),
    ensures
        ({
            let s = spec_parse_line(toks.deep_view(), i as int, event@);
            match r {
                Result::Ok(p) => s == (Parsed::Good { value: p.0.deep_view(), next: p.1 as int })
                    && i < p.1 <= toks@.len(),
                Result::Err(e) => s == (Parsed::<Seq<TransModel>>::Bad { expected: e.expected, at: e.at as int })
                    && e.at <= toks@.len(),
            }
        }),
    decreases toks@.len() - i, 1int,
{
    match parse_from_list(toks, i) {
        Result::Err(e) => Result::Err(e),
        Result::Ok((froms, j)) => {
            if j >= toks.len() {
                return Result::Err(SyntaxError { expected: Expected::TargetState, at: j });
            }
            let to: Vec<u8> = match &toks[j] {
                Token::Ident(t) => copy_name(t),
                _ => {
                    return Result::Err(SyntaxError { expected: Expected::TargetState, at: j });
                },
            };
            let ghost froms_m = froms.deep_view();
            let ghost to_m = to@;
            let mut ts: Vec<TransitionDecl> = Vec::new();
            let mut k: usize = 0;
            while k < froms.len()
                invariant
                    k <= froms.len(),
                    froms.deep_view() == froms_m,
                    to@ == to_m,
                    ts.deep_view().len() == k,
                    forall|q: int| 0 <= q < k ==> ts.deep_view()[q] == (TransModel {
                        event: event@,
                        from: froms_m[q],
                        to: to_m,
                    }),
                decreases froms.len() - k,
            {
                let decl = TransitionDecl {
                    event: copy_name(event),
                    from: copy_name(&froms[k]),
                    to: copy_name(&to),
                };
                let ghost dg = decl;
                let ghost pre = ts;
                proof {
                    lemma_byte_vec_deep_view(froms@[k as int]);
                }
                ts.push(decl);
                proof {
                    lemma_deep_view_push(pre, ts, dg);
                }
                k = k + 1;
            }
            proof {
                assert(ts.deep_view() =~= froms_m.map_values(
                    |f: Seq<u8>| TransModel { event: event@, from: f, to: to_m },
                ));
            }
            Result::Ok((ts, j + 1))
        },
    }
}

/// Parses the one or more transition lines of an event block, up to
/// and including its closing brace.
pub fn parse_lines(toks: &Vec<Token>, i: usize, event: &Vec<u8>) -> (r: Result<
    (Vec<TransitionDecl>, usize),
    SyntaxError,
>)
    requires
        i <= toks@.len(),
    ensures
        ({
            let s = spec_parse_lines(toks.deep_view(), i as int, event@);
            match r {
                Result::Ok(p) => s == (Parsed::Good { value: p.0.deep_view(), next: p.1 as int })
                    && i < p.1 <= toks@.len(),
                Result::Err(e) => s == (Parsed::<Seq<TransModel>>::Bad { expected: e.expected, at: e.at as int })
                    && e.at <= toks@.len(),
            }
        }),
    decreases toks@.len() - i, 2int,
{
    match parse_line(toks, i, event) {
        Result::Err(e) => Result::Err(e),
        Result::Ok((ts, j)) => {
            if j >= toks.len() {
                return Result::Err(SyntaxError { expected: Expected::StateOrCloseBrace, at: j });
            }
            if is_rbrace(&toks[j]) {
                return Result::Ok((ts, j + 1));
            }
            match &toks[j] {
                Token::Ident(_) => match parse_lines(toks, j, event) {
                    Result::Err(e) => Result::Err(e),
                    Result::Ok((rest, next)) => {
                        let ghost ts_m = ts.deep_view();
                        let ghost rest_m = rest.deep_view();
                        let mut out = ts;
                        let mut rest2 = rest;
                        out.append(&mut rest2);
                        proof {
                            assert(out.deep_view() =~= ts_m + rest_m);
                        }
                        Result::Ok((out, next))
                    },
                },
                _ => Result::Err(SyntaxError { expected: Expected::StateOrCloseBrace, at: j }),
            }
        },
    }
}

/// Parses one event block, yielding its transitions in declaration
/// order.
pub fn parse_event_block(toks: &Vec<Token>, i: usize) -> (r: Result<
    (Vec<TransitionDecl>, usize),
    SyntaxError,
>)
    requires
        i <= toks@.len(),
    ensures
        ({
            let s = spec_parse_event_block(toks.deep_view(), i as int);
            match r {
                Result::Ok(p) => s == (Parsed::Good { value: p.0.deep_view(), next: p.1 as int })
                    && i < p.1 <= toks@.len(),
                Result::Err(e) => s == (Parsed::<Seq<TransModel>>::Bad { expected: e.expected, at: e.at as int })
                    && e.at <= toks@.len(),
            }
        }),
    decreases toks@.len() - i, 3int,
{
    if i >= toks.len() {
        return Result::Err(SyntaxError { expected: Expected::EventOrCloseBrace, at: i });
    }
    let event: Vec<u8> = match &toks[i] {
        Token::Ident(n) => copy_name(n),
        _ => {
            return Result::Err(SyntaxError { expected: Expected::EventOrCloseBrace, at: i });
        },
    };
    if !(i + 1 < toks.len() && is_lbrace(&toks[i + 1])) {
        return Result::Err(SyntaxError { expected: Expected::BlockBody, at: i + 1 });
    }
    parse_lines(toks, i + 2, &event)
}

/// Parses the event blocks of a machine body, in order, stopping
/// before the machine's closing brace.
pub fn parse_event_blocks(toks: &Vec<Token>, i: usize) -> (r: Result<
    (Vec<TransitionDecl>, usize),
    SyntaxError,
>)
    requires
        i <= toks@.len(),
    ensures
        ({
            let s = spec_parse_event_blocks(toks.deep_view(), i as int);
            match r {
                Result::Ok(p) => s == (Parsed::Good { value: p.0.deep_view(), next: p.1 as int })
                    && i <= p.1 <= toks@.len(),
                Result::Err(e) => s == (Parsed::<Seq<TransModel>>::Bad { expected: e.expected, at: e.at as int })
                    && e.at <= toks@.len(),
            }
        }),
    decreases toks@.len() - i, 4int,
{
    if i >= toks.len() {
        return Result::Err(SyntaxError { expected: Expected::EventOrCloseBrace, at: i });
    }
    if is_rbrace(&toks[i]) {
        let out: Vec<TransitionDecl> = Vec::new();
        proof {
            assert(out.deep_view() =~= Seq::<TransModel>::empty());
        }
        return Result::Ok((out, i));
    }
    match &toks[i] {
        Token::Ident(_) => match parse_event_block(toks, i) {
            Result::Err(e) => Result::Err(e),
            Result::Ok((ts, j)) => match parse_event_blocks(toks, j) {
                Result::Err(e) => Result::Err(e),
                Result::Ok((rest, next)) => {
                    let ghost ts_m = ts.deep_view();
                    let ghost rest_m = rest.deep_view();
                    let mut out = ts;
                    let mut rest2 = rest;
                    out.append(&mut rest2);
                    proof {
                        assert(out.deep_view() =~= ts_m + rest_m);
                    }
                    Result::Ok((out, next))
                },
            },
        },
        _ => Result::Err(SyntaxError { expected: Expected::EventOrCloseBrace, at: i }),
    }
}

/// Parses an optional keyword-headed resource block.
pub fn parse_opt_resources(toks: &Vec<Token>, i: usize, kw: &Vec<u8>) -> (r: Result<
    (Vec<ResourceParam>, usize),
    SyntaxError,
>)
    requires
        i <= toks@.len(),
    ensures
        ({
            let s = spec_parse_opt_resources(toks.deep_view(), i as int, kw@);
            match r {
                Result::Ok(p) => s == (Parsed::Good { value: p.0.deep_view(), next: p.1 as int })
                    && i <= p.1 <= toks@.len(),
                Result::Err(e) => s == (Parsed::<Seq<ResModel>>::Bad { expected: e.expected, at: e.at as int })
                    && e.at <= toks@.len(),
            }
        }),
    decreases toks@.len() - i, 5int,
{
    if i < toks.len() {
        let headed: bool = match &toks[i] {
            Token::Ident(n) => bytes_eq(n, kw),
            _ => false,
        };
        if headed {
            if !(i + 1 < toks.len() && is_lbrace(&toks[i + 1])) {
                return Result::Err(SyntaxError { expected: Expected::BlockBody, at: i + 1 });
            }
            return parse_resource_list(toks, i + 2);
        }
    }
    let out: Vec<ResourceParam> = Vec::new();
    proof {
        assert(out.deep_view() =~= Seq::<ResModel>::empty());
    }
    Result::Ok((out, i))
}

/// Parses an optional `InitialStates` block.
pub fn parse_opt_initials(toks: &Vec<Token>, i: usize) -> (r: Result<
    (Vec<Vec<u8>>, usize),
    SyntaxError,
>)
    requires
        i <= toks@.len(),
    ensures
        ({
            let s = spec_parse_opt_initials(toks.deep_view(), i as int);
            match r {
                Result::Ok(p) => s == (Parsed::Good { value: p.0.deep_view(), next: p.1 as int })
                    && i <= p.1 <= toks@.len(),
                Result::Err(e) => s == (Parsed::<Seq<Seq<u8>>>::Bad { expected: e.expected, at: e.at as int })
                    && e.at <= toks@.len(),
            }
        }),
    decreases toks@.len() - i, 5int,
{
    if i < toks.len() {
        let kw = kw_initial_states_vec();
        let headed: bool = match &toks[i] {
            Token::Ident(n) => bytes_eq(n, &kw),
            _ => false,
        };
        if headed {
            if !(i + 1 < toks.len() && is_lbrace(&toks[i + 1])) {
                return Result::Err(SyntaxError { expected: Expected::BlockBody, at: i + 1 });
            }
            return parse_name_list(toks, i + 2);
        }
    }
    let out: Vec<Vec<u8>> = Vec::new();
    proof {
        assert(out.deep_view() =~= Seq::<Seq<u8>>::empty());
    }
    Result::Ok((out, i))
}

/// Parses one machine block into a machine definition, or fails
/// without producing a partial one.
pub fn parse_machine(toks: &Vec<Token>, i: usize) -> (r: Result<(MachineSpec, usize), SyntaxError>)
    requires
        i <= toks@.len(),
    ensures
        ({
            let s = spec_parse_machine(toks.deep_view(), i as int);
            match r {
                Result::Ok(p) => s == (Parsed::Good { value: p.0@, next: p.1 as int }) && i < p.1
                    <= toks@.len(),
                Result::Err(e) => s == (Parsed::<MachineModel>::Bad { expected: e.expected, at: e.at as int })
                    && e.at <= toks@.len(),
            }
        }),
    decreases toks@.len() - i, 6int,
{
    if i >= toks.len() {
        return Result::Err(SyntaxError { expected: Expected::MachineName, at: i });
    }
    let name: Vec<u8> = match &toks[i] {
        Token::Ident(n) => copy_name(n),
        _ => {
            return Result::Err(SyntaxError { expected: Expected::MachineName, at: i });
        },
    };
    if !(i + 1 < toks.len() && is_lbrace(&toks[i + 1])) {
        return Result::Err(SyntaxError { expected: Expected::MachineBody, at: i + 1 });
    }
    let kwg = kw_guard_resources_vec();
    let (guards, j1) = match parse_opt_resources(toks, i + 2, &kwg) {
        Result::Ok(p) => p,
        Result::Err(e) => {
            return Result::Err(e);
        },
    };
    let kwa = kw_action_resources_vec();
    let (actions, j2) = match parse_opt_resources(toks, j1, &kwa) {
        Result::Ok(p) => p,
        Result::Err(e) => {
            return Result::Err(e);
        },
    };
    let (initials, j3) = match parse_opt_initials(toks, j2) {
        Result::Ok(p) => p,
        Result::Err(e) => {
            return Result::Err(e);
        },
    };
    let (ts, j4) = match parse_event_blocks(toks, j3) {
        Result::Ok(p) => p,
        Result::Err(e) => {
            return Result::Err(e);
        },
    };
    if !(j4 < toks.len() && is_rbrace(&toks[j4])) {
        return Result::Err(SyntaxError { expected: Expected::EventOrCloseBrace, at: j4 });
    }
    if ts.len() == 0 && initials.len() == 0 {
        return Result::Err(SyntaxError { expected: Expected::InitialStateOrTransition, at: j4 });
    }
    let m = MachineSpec {
        name,
        transitions: ts,
        initial_states: initials,
        guard_resources: guards,
        action_resources: actions,
    };
    proof {
        assert(spec_parse_machine(toks.deep_view(), i as int) == (Parsed::Good {
            value: m@,
            next: j4 as int + 1,
        }));
    }
    Result::Ok((m, j4 + 1))
}

/// Parses a sequence of machine blocks until the input is exhausted:
/// one definition per block, with independent namespaces.
pub fn parse_machines(toks: &Vec<Token>, i: usize) -> (r: Result<
    (Vec<MachineSpec>, usize),
    SyntaxError,
>)
    requires
        i <= toks@.len(),
    ensures
        ({
            let s = spec_parse_machines(toks.deep_view(), i as int);
            match r {
                Result::Ok(p) => s == (Parsed::Good { value: p.0.deep_view(), next: p.1 as int })
                    && i <= p.1 && p.1 == toks@.len(),
                Result::Err(e) => s == (Parsed::<Seq<MachineModel>>::Bad { expected: e.expected, at: e.at as int })
                    && e.at <= toks@.len(),
            }
        }),
    decreases toks@.len() - i, 7int,
{
    if i >= toks.len() {
        let out: Vec<MachineSpec> = Vec::new();
        proof {
            assert(out.deep_view() =~= Seq::<MachineModel>::empty());
        }
        return Result::Ok((out, i));
    }
    match parse_machine(toks, i) {
        Result::Err(e) => Result::Err(e),
        Result::Ok((m, j)) => match parse_machines(toks, j) {
            Result::Err(e) => Result::Err(e),
            Result::Ok((rest, next)) => {
                let ghost m_m = m@;
                let ghost rest_m = rest.deep_view();
                let mut out: Vec<MachineSpec> = Vec::new();
                out.push(m);
                let mut rest2 = rest;
                out.append(&mut rest2);
                proof {
                    assert(out.deep_view() =~= seq![m_m] + rest_m);
                }
                Result::Ok((out, next))
            },
        },
    }
}

/// Parses a whole token stream: a list of independent machine
/// definitions, or the first error.
pub fn parse(toks: &Vec<Token>) -> (r: Result<Vec<MachineSpec>, SyntaxError>)
    ensures
        ({
            let s = spec_parse_machines(toks.deep_view(), 0);
            match r {
                Result::Ok(ms) => s matches Parsed::Good { value, next } && value == ms.deep_view(),
                Result::Err(e) => s == (Parsed::<Seq<MachineModel>>::Bad { expected: e.expected, at: e.at as int }),
            }
        }),
{
    match parse_machines(toks, 0) {
        Result::Ok((ms, _)) => Result::Ok(ms),
        Result::Err(e) => Result::Err(e),
    }
}

} // verus!
