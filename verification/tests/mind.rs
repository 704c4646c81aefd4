use klotho::anchor::AnchorId;
use klotho::ir_error::IrError;
use klotho::mind::{
    FarRule, MindFact, MindGoal, MindIntent, MindOperator, MindProgram, MindQuery, MindRef, MindSpec, MindTarget, Rel,
    MAX_MIND_FACTS,
};
use klotho::names::{Name, Verb};
use klotho::target::IntentTarget;
use klotho::units::Sigil;

fn fact(id: &str, far_safe: bool) -> MindFact {
    MindFact { id: Name::from(id), query: MindQuery::Never, far_safe }
}

fn spec(program: MindProgram) -> MindSpec {
    MindSpec { locus: Name::from("guard"), program, templates: Vec::new() }
}

fn invalid(e: Result<(), IrError>) -> String {
    match e {
        Err(IrError::InvalidMindProgram(m)) => m,
        other => panic!("unexpected {other:?}"),
    }
}

#[test]
fn over_cap_program_has_actor_anchored_diagnostic() {
    let spec = MindSpec {
        locus: Name::from("chorus_guard"),
        program: MindProgram {
            facts: (0..=MAX_MIND_FACTS).map(|i| fact(&format!("fact_{i}"), false)).collect(),
            ..MindProgram::default()
        },
        templates: Vec::new(),
    };
    let error = spec.validate().unwrap_err();
    assert!(matches!(
        error,
        IrError::MindProgramCap { ref locus, ref resource, actual: 65, cap: 64 }
            if locus == "chorus_guard" && resource == "facts"
    ));
    assert_ne!(error.to_diagnostic().primary, AnchorId::zero());
}

#[test]
fn protected_far_fact_fails_closed() {
    let protected = Name::from("ownership");
    let spec = MindSpec {
        locus: Name::from("guard"),
        program: MindProgram {
            facts: vec![MindFact {
                id: protected.clone(),
                query: MindQuery::Related { a: MindRef::This, rel: Rel::OwnedBy, b: MindRef::This },
                far_safe: true,
            }],
            far: vec![FarRule {
                requires: vec![protected.clone()],
                effects: vec![protected],
                verb: Verb::Investigate,
                target: MindTarget::NoTarget,
                utility: 1,
            }],
            ..MindProgram::default()
        },
        templates: Vec::new(),
    };
    assert!(matches!(spec.validate(), Err(IrError::UnsafeFarFact { .. })));
}

fn op(id: &str, requires: &[&str], cost: u16, verb: Verb) -> MindOperator {
    MindOperator {
        id: Name::from(id),
        requires: requires.iter().map(|n| Name::from(*n)).collect(),
        sets: vec![],
        clears: vec![],
        cost,
        verb,
        target: MindTarget::NoTarget,
    }
}

#[test]
fn program_checks_report_the_first_fault() {
    let ok = MindProgram {
        facts: vec![fact("armed", false), fact("tick", true)],
        operators: vec![op("draw", &["armed"], 1, Verb::Use)],
        goals: vec![MindGoal { id: Name::from("ready"), desired: vec![Name::from("armed")], utility: 3 }],
        far: vec![FarRule {
            requires: vec![Name::from("tick")],
            effects: vec![],
            verb: Verb::Look,
            target: MindTarget::NoTarget,
            utility: 1,
        }],
        beat: None,
    };
    assert_eq!(spec(ok.clone()).validate(), Ok(()));
    let mut p = ok.clone();
    p.facts.push(fact("armed", false));
    assert_eq!(invalid(spec(p).validate()), "guard: duplicate fact armed");
    let mut p = ok.clone();
    p.operators.push(op("wait", &["armed"], 1, Verb::Time));
    assert_eq!(invalid(spec(p).validate()), "guard: invalid operator wait");
    let mut p = ok.clone();
    p.operators[0].requires.push(Name::from("ghost"));
    assert_eq!(invalid(spec(p).validate()), "guard: unknown fact ghost");
    let mut p = ok.clone();
    p.goals[0].desired.clear();
    assert_eq!(invalid(spec(p).validate()), "guard: invalid goal ready");
    let mut p = ok.clone();
    p.far[0].verb = Verb::Use;
    assert_eq!(invalid(spec(p).validate()), "guard: Far action must be un-targeted Look, Move, or Investigate");
    let mut p = ok.clone();
    p.facts.push(MindFact { id: Name::from("clock"), query: MindQuery::TickModulo { period: 3, phase: 3 }, far_safe: false });
    assert_eq!(invalid(spec(p).validate()), "invalid Beat clock");
    let mut p = ok.clone();
    p.beat = Some(Name::from(""));
    assert_eq!(spec(p).validate(), Err(IrError::EmptyName));
    let mut p = ok;
    p.goals = (0..5).map(|i| MindGoal { id: Name::from(format!("g{i}").as_str()), desired: vec![], utility: 0 }).collect();
    assert!(matches!(
        spec(p).validate(),
        Err(IrError::MindProgramCap { ref resource, actual: 5, cap: 4, .. }) if resource == "goals"
    ));
}

#[test]
fn far_inputs_are_counted_once() {
    let facts: Vec<MindFact> = (0..17).map(|i| fact(&format!("f{i}"), true)).collect();
    let row = |names: Vec<Name>| FarRule { requires: names, effects: vec![], verb: Verb::Move, target: MindTarget::NoTarget, utility: 0 };
    let sixteen: Vec<Name> = (0..16).map(|i| Name::from(format!("f{i}").as_str())).collect();
    let p = MindProgram { facts: facts.clone(), far: vec![row(sixteen.clone()), row(sixteen.clone())], ..MindProgram::default() };
    assert_eq!(spec(p).validate(), Ok(()));
    let mut more = sixteen;
    more.push(Name::from("f16"));
    let p = MindProgram { facts, far: vec![row(more)], ..MindProgram::default() };
    assert!(matches!(
        spec(p).validate(),
        Err(IrError::MindProgramCap { ref resource, actual: 17, cap: 16, .. }) if resource == "far inputs"
    ));
}

#[test]
fn mind_intent_needs_a_named_target() {
    let i = MindIntent { locus: Sigil::from_raw(1), verb: Verb::Look, target: IntentTarget::Name(Name::from("")), utility: 0 };
    assert_eq!(i.validate(), Err(IrError::EmptyName));
    let j = MindIntent { target: IntentTarget::NoTarget, ..i };
    assert_eq!(j.validate(), Ok(()));
}
