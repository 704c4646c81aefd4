//! Blame identities and the diagnostic envelope of each failure kind.
use vstd::prelude::*;
use vstd::string::StringSliceAdditionalSpecFns;

use crate::anchor::{anchor_domain, spec_derive, zero16, AnchorId};
use crate::bytes::append_bytes;
use crate::diag::{
    as_data, spec_as_data, Counterexample, Diagnostic, DiagnosticCode, EstimatedCost, FailureClass, RepairShape,
    Severity,
};
use crate::failure::{chars_of, concat, decimal, spec_decimal, text};
use crate::ir_error::{string_views, IrError};

verus! {

/// Text order: lexicographic by code point, a proper prefix first. This is
/// the order of `str`, whose UTF-8 bytes compare the same way.
pub open spec fn text_lt(a: Seq<char>, b: Seq<char>) -> bool
    decreases a.len(),
{
    if a.len() == 0 {
        b.len() > 0
    } else if b.len() == 0 {
        false
    } else if a[0] != b[0] {
        (a[0] as u32) < (b[0] as u32)
    } else {
        text_lt(a.drop_first(), b.drop_first())
    }
}

/// Texts in strictly increasing order.
pub open spec fn strictly_sorted(s: Seq<Seq<char>>) -> bool {
    forall|i: int, j: int| 0 <= i < j < s.len() ==> text_lt(#[trigger] s[i], #[trigger] s[j])
}

/// Views of borrowed texts.
pub open spec fn str_views(v: Seq<&str>) -> Seq<Seq<char>> {
    v.map_values(|s: &str| s@)
}

pub proof fn lemma_text_lt_irreflexive(a: Seq<char>)
    ensures
        !text_lt(a, a),
    decreases a.len(),
{
    if a.len() > 0 {
        lemma_text_lt_irreflexive(a.drop_first());
    }
}

pub proof fn lemma_text_lt_total(a: Seq<char>, b: Seq<char>)
    ensures
        a != b ==> (text_lt(a, b) || text_lt(b, a)),
        !(text_lt(a, b) && text_lt(b, a)),
    decreases a.len(),
{
    if a.len() > 0 && b.len() > 0 {
        lemma_text_lt_total(a.drop_first(), b.drop_first());
        if a[0] == b[0] && a.drop_first() == b.drop_first() {
            assert(a =~= seq![a[0]] + a.drop_first());
            assert(b =~= seq![b[0]] + b.drop_first());
        }
        if a[0] != b[0] {
            assert((a[0] as u32) != (b[0] as u32)) by {
                vstd::utf8::char_u32_cast(a[0], a[0] as u32);
                vstd::utf8::char_u32_cast(b[0], b[0] as u32);
            }
        }
    } else if a.len() == 0 && b.len() == 0 {
        assert(a =~= b);
    }
}

pub proof fn lemma_text_lt_transitive(a: Seq<char>, b: Seq<char>, c: Seq<char>)
    requires
        text_lt(a, b),
        text_lt(b, c),
    ensures
        text_lt(a, c),
    decreases a.len(),
{
    if a.len() > 0 && b.len() > 0 && c.len() > 0 && a[0] == b[0] && b[0] == c[0] {
        lemma_text_lt_transitive(a.drop_first(), b.drop_first(), c.drop_first());
    }
}

/// `true` when `a` sorts strictly before `b`.
pub fn text_less(a: &str, b: &str) -> (r: bool)
    ensures
        r == text_lt(a@, b@),
{
    let x = chars_of(a);
    let y = chars_of(b);
    let mut i: usize = 0;
    assert(a@.skip(0) =~= a@);
    assert(b@.skip(0) =~= b@);
    while i < x.len() && i < y.len()
        invariant
            x@ == a@,
            y@ == b@,
            0 <= i <= x@.len(),
            i <= y@.len(),
            text_lt(a@, b@) == text_lt(a@.skip(i as int), b@.skip(i as int)),
        decreases x@.len() - i,
    {
        let cx = x[i];
        let cy = y[i];
        if cx != cy {
            return (cx as u32) < (cy as u32);
        }
        assert(a@.skip(i as int).drop_first() =~= a@.skip(i as int + 1));
        assert(b@.skip(i as int).drop_first() =~= b@.skip(i as int + 1));
        i = i + 1;
    }
    i >= x.len() && i < y.len()
}

/// The distinct texts of `items`, sorted.
pub fn sorted_texts(items: &[&str]) -> (r: Vec<String>)
    ensures
        strictly_sorted(string_views(r@)),
        forall|t: Seq<char>| string_views(r@).contains(t) <==> str_views(items@).contains(t),
{
    let mut out: Vec<String> = Vec::new();
    let mut k: usize = 0;
    while k < items.len()
        invariant
            0 <= k <= items@.len(),
            strictly_sorted(string_views(out@)),
            forall|t: Seq<char>| string_views(out@).contains(t) <==> str_views(items@.take(k as int)).contains(t),
        decreases items@.len() - k,
    {
        let x = items[k];
        let mut p: usize = 0;
        while p < out.len() && text_less(out[p].as_str(), x)
            invariant
                0 <= p <= out@.len(),
                forall|i: int| 0 <= i < p ==> text_lt(#[trigger] out@[i]@, x@),
            decreases out@.len() - p,
        {
            p = p + 1;
        }
        let ghost before = out@;
        let dup = p < out.len() && crate::diag::str_eq(out[p].as_str(), x);
        if !dup {
            proof {
                if p < out@.len() {
                    lemma_text_lt_total(out@[p as int]@, x@);
                }
            }
            out.insert(p, text(x));
            proof {
                assert forall|i: int, j: int| 0 <= i < j < out@.len() implies text_lt(
                    #[trigger] string_views(out@)[i],
                    #[trigger] string_views(out@)[j],
                ) by {
                    if j < p {
                        assert(string_views(before)[i] == out@[i]@);
                        assert(string_views(before)[j] == out@[j]@);
                    } else if j == p {
                    } else if i == p {
                        assert(out@[j] == before[j - 1]);
                        if j - 1 > p {
                            assert(string_views(before)[p as int] == before[p as int]@);
                            assert(string_views(before)[j - 1] == before[j - 1]@);
                            lemma_text_lt_transitive(x@, before[p as int]@, before[j - 1]@);
                        }
                    } else if i < p {
                        assert(out@[j] == before[j - 1]);
                        assert(text_lt(out@[i]@, x@));
                        if p < before.len() {
                            lemma_text_lt_transitive(out@[i]@, x@, before[p as int]@);
                            if j - 1 > p {
                                assert(string_views(before)[p as int] == before[p as int]@);
                                assert(string_views(before)[j - 1] == before[j - 1]@);
                                lemma_text_lt_transitive(out@[i]@, before[p as int]@, before[j - 1]@);
                            }
                        }
                    } else {
                        assert(out@[i] == before[i - 1]);
                        assert(out@[j] == before[j - 1]);
                        assert(string_views(before)[i - 1] == before[i - 1]@);
                        assert(string_views(before)[j - 1] == before[j - 1]@);
                    }
                }
            }
        }
        proof {
            let sv = string_views(out@);
            let bv = string_views(before);
            let iv = str_views(items@.take(k as int + 1));
            let pv = str_views(items@.take(k as int));
            assert(items@.take(k as int + 1) =~= items@.take(k as int).push(x));
            assert(iv =~= pv.push(x@));
            assert forall|t: Seq<char>| iv.contains(t) <==> (pv.contains(t) || t == x@) by {
                if pv.contains(t) {
                    let i = choose|i: int| 0 <= i < pv.len() && pv[i] == t;
                    assert(iv[i] == t);
                }
                if iv.contains(t) {
                    let i = choose|i: int| 0 <= i < iv.len() && iv[i] == t;
                    if i < pv.len() {
                        assert(pv[i] == t);
                    }
                }
                if t == x@ {
                    assert(iv[pv.len() as int] == t);
                }
            }
            assert forall|t: Seq<char>| sv.contains(t) <==> (bv.contains(t) || t == x@) by {
                if dup {
                    assert(sv =~= bv);
                    if t == x@ {
                        assert(bv[p as int] == x@);
                    }
                } else {
                    assert(sv =~= bv.insert(p as int, x@));
                    if bv.contains(t) {
                        let i = choose|i: int| 0 <= i < bv.len() && bv[i] == t;
                        if i < p {
                            assert(sv[i] == t);
                        } else {
                            assert(sv[i + 1] == t);
                        }
                    }
                    if sv.contains(t) {
                        let i = choose|i: int| 0 <= i < sv.len() && sv[i] == t;
                        if i < p {
                            assert(bv[i] == t);
                        } else if i > p {
                            assert(bv[i - 1] == t);
                        }
                    }
                    if t == x@ {
                        assert(sv[p as int] == t);
                    }
                }
            }
        }
        k = k + 1;
    }
    assert(items@.take(items@.len() as int) =~= items@);
    out
}

/// Namespace of blame identities.
pub open spec fn blame_domain() -> Seq<u8> {
    "klotho-diag-v1".spec_bytes()
}

/// Token of a blame identity: `kind`, a colon, then `token`.
pub open spec fn blame_token(kind: Seq<char>, token: Seq<char>) -> Seq<u8> {
    vstd::utf8::encode_utf8(kind) + seq![58u8] + vstd::utf8::encode_utf8(token)
}

/// The blame identity of `token` of `kind`.
pub open spec fn spec_blame(kind: Seq<char>, token: Seq<char>) -> Seq<u8> {
    spec_derive(anchor_domain(), blame_domain(), blame_token(kind, token))
}

/// Deterministic blame identity from a kind and token.
pub fn blame_anchor(kind: &str, token: &str) -> (r: AnchorId)
    ensures
        r.0@ == spec_blame(kind@, token@),
{
    let mut t: Vec<u8> = Vec::new();
    append_bytes(&mut t, kind.as_bytes());
    t.push(58u8);
    append_bytes(&mut t, token.as_bytes());
    assert(t@ =~= blame_token(kind@, token@));
    AnchorId::derive("klotho-diag-v1".as_bytes(), t.as_slice())
}

/// Code, class, severity, message, primary anchor and cost of an envelope.
pub open spec fn envelope_is(
    d: Diagnostic,
    code: Seq<char>,
    class: FailureClass,
    message: Seq<char>,
    primary: Seq<u8>,
    units: u16,
    stage: Seq<char>,
) -> bool {
    &&& d.code.0@ == code
    &&& d.class == class
    &&& d.severity == Severity::Error
    &&& d.message@ == message
    &&& d.primary.0@ == primary
    &&& d.cost matches Some(c) && c.units == units && c.stage@ == stage
}

/// The envelope offers exactly one repair.
pub open spec fn one_repair(d: Diagnostic, op: Seq<char>, note: Seq<char>) -> bool {
    d.legal_repairs@.len() == 1 && d.legal_repairs@[0].op@ == op && d.legal_repairs@[0].note@ == note
}

/// The related anchors, in order.
pub open spec fn related_are(d: Diagnostic, ids: Seq<Seq<u8>>) -> bool {
    d.related@.len() == ids.len() && forall|i: int| 0 <= i < ids.len() ==> (#[trigger] d.related@[i]).0@ == ids[i]
}

fn repair(op: &str, note: &str) -> (r: Vec<RepairShape>)
    ensures
        r@.len() == 1,
        r@[0].op@ == op@,
        r@[0].note@ == note@,
{
    let mut v: Vec<RepairShape> = Vec::new();
    v.push(RepairShape { op: text(op), note: text(note) });
    v
}

fn cost(units: u16, stage: &str) -> (r: Option<EstimatedCost>)
    ensures
        r matches Some(c) && c.units == units && c.stage@ == stage@,
{
    Some(EstimatedCost { units, stage: text(stage) })
}

fn envelope(
    code: &str,
    class: FailureClass,
    message: String,
    primary: AnchorId,
    related: Vec<AnchorId>,
    witness: Option<Counterexample>,
    legal_repairs: Vec<RepairShape>,
    cost: Option<EstimatedCost>,
) -> (d: Diagnostic)
    ensures
        d.code.0@ == code@,
        d.class == class,
        d.severity == Severity::Error,
        d.message == message,
        d.primary == primary,
        d.related == related,
        d.witness == witness,
        d.legal_repairs == legal_repairs,
        d.cost == cost,
{
    Diagnostic {
        code: DiagnosticCode::new(code),
        class,
        severity: Severity::Error,
        message,
        primary,
        related,
        witness,
        legal_repairs,
        cost,
    }
}

fn one_anchor(a: AnchorId) -> (r: Vec<AnchorId>)
    ensures
        r@ == seq![a],
{
    let mut v: Vec<AnchorId> = Vec::new();
    v.push(a);
    assert(v@ =~= seq![a]);
    v
}

fn blame_all(kind: &str, items: &[&str]) -> (r: Vec<AnchorId>)
    ensures
        r@.len() == items@.len(),
        forall|i: int| 0 <= i < items@.len() ==> (#[trigger] r@[i]).0@ == spec_blame(kind@, items@[i]@),
{
    let mut out: Vec<AnchorId> = Vec::new();
    let mut i: usize = 0;
    while i < items.len()
        invariant
            0 <= i <= items@.len(),
            out@.len() == i,
            forall|j: int| 0 <= j < i ==> (#[trigger] out@[j]).0@ == spec_blame(kind@, items@[j]@),
        decreases items@.len() - i,
    {
        out.push(blame_anchor(kind, items[i]));
        i = i + 1;
    }
    out
}

fn owned_all(items: &[&str]) -> (r: Vec<String>)
    ensures
        string_views(r@) == str_views(items@),
{
    let mut out: Vec<String> = Vec::new();
    let mut i: usize = 0;
    while i < items.len()
        invariant
            0 <= i <= items@.len(),
            string_views(out@) == str_views(items@.take(i as int)),
        decreases items@.len() - i,
    {
        let ghost before = out@;
        let t = text(items[i]);
        out.push(t);
        assert(items@.take(i as int + 1) =~= items@.take(i as int).push(items@[i as int]));
        assert(string_views(out@) =~= string_views(before).push(t@));
        assert(str_views(items@.take(i as int + 1)) =~= str_views(items@.take(i as int)).push(items@[i as int]@));
        i = i + 1;
    }
    assert(items@.take(items@.len() as int) =~= items@);
    out
}

fn data_all(items: &[&str]) -> (r: Vec<String>)
    ensures
        r@.len() == items@.len(),
        forall|i: int| 0 <= i < items@.len() ==> (#[trigger] r@[i])@ == spec_as_data(items@[i]@),
{
    let mut out: Vec<String> = Vec::new();
    let mut i: usize = 0;
    while i < items.len()
        invariant
            0 <= i <= items@.len(),
            out@.len() == i,
            forall|j: int| 0 <= j < i ==> (#[trigger] out@[j])@ == spec_as_data(items@[j]@),
        decreases items@.len() - i,
    {
        out.push(as_data(items[i]));
        i = i + 1;
    }
    out
}

/// Contradiction among laws: the distinct law ids, sorted; the first is
/// blamed, the rest are related.
pub fn diagnose_contradiction(laws: &[&str], message: String) -> (d: Diagnostic)
    ensures
        d.code.0@ == DiagnosticCode::CONTRADICTION@,
        d.class == FailureClass::Contradiction,
        d.severity == Severity::Error,
        d.message == message,
        d.witness matches Some(Counterexample::Contradiction { laws: names }) && {
            let n = string_views(names@);
            &&& strictly_sorted(n)
            &&& forall|t: Seq<char>| n.contains(t) <==> str_views(laws@).contains(t)
            &&& d.primary.0@ == (if n.len() == 0 {
                zero16()
            } else {
                spec_blame("law"@, n[0])
            })
            &&& d.related@.len() == (if n.len() == 0 {
                0
            } else {
                n.len() - 1
            })
            &&& forall|i: int| 0 <= i < d.related@.len() ==> (#[trigger] d.related@[i]).0@ == spec_blame("law"@, n[i + 1])
        },
        one_repair(d, "author.remove@1"@, "remove one scoped fact"@),
        d.cost matches Some(c) && c.units == 3 && c.stage@ == "cook"@,
{
    let names = sorted_texts(laws);
    let ghost n = string_views(names@);
    let primary = if names.len() == 0 {
        AnchorId::zero()
    } else {
        blame_anchor("law", names[0].as_str())
    };
    let mut related: Vec<AnchorId> = Vec::new();
    let mut i: usize = 1;
    while i < names.len()
        invariant
            n == string_views(names@),
            1 <= i <= names@.len() || (names@.len() == 0 && i == 1),
            related@.len() == i - 1,
            forall|j: int| 0 <= j < related@.len() ==> (#[trigger] related@[j]).0@ == spec_blame("law"@, n[j + 1]),
        decreases names@.len() - i,
    {
        related.push(blame_anchor("law", names[i].as_str()));
        i = i + 1;
    }
    let witness = Some(Counterexample::Contradiction { laws: names });
    envelope(
        DiagnosticCode::CONTRADICTION,
        FailureClass::Contradiction,
        message,
        primary,
        related,
        witness,
        repair("author.remove@1", "remove one scoped fact"),
        cost(3, "cook"),
    )
}

/// Rite control-flow failure: the rite is blamed, the blocked pc related.
pub fn diagnose_cfg(rite: &str, last_reachable_pc: u16, blocked_pc: u16, message: String) -> (d: Diagnostic)
    ensures
        envelope_is(d, DiagnosticCode::CFG_TARGET@, FailureClass::Cfg, message@, spec_blame("rite"@, rite@), 2, "cook"@),
        related_are(d, seq![spec_blame("rite-pc"@, spec_decimal(blocked_pc as nat))]),
        d.witness == Some(Counterexample::Cfg { last_reachable_pc, blocked_pc }),
        one_repair(d, "canon.diff.add@1"@, "retarget within the owned Rite"@),
{
    let pc = decimal(blocked_pc as u64);
    let related = one_anchor(blame_anchor("rite-pc", pc.as_str()));
    envelope(
        DiagnosticCode::CFG_TARGET,
        FailureClass::Cfg,
        message,
        blame_anchor("rite", rite),
        related,
        Some(Counterexample::Cfg { last_reachable_pc, blocked_pc }),
        repair("canon.diff.add@1", "retarget within the owned Rite"),
        cost(2, "cook"),
    )
}

/// The envelope of a cap failure.
pub open spec fn cap_diag(d: Diagnostic, subject: Seq<char>, used: u32, limit: u32, message: Seq<char>) -> bool {
    &&& envelope_is(d, DiagnosticCode::CAP@, FailureClass::Cap, message, spec_blame("cap"@, subject), 1, "cook"@)
    &&& d.related@.len() == 0
    &&& d.witness == Some(Counterexample::Cap { used, limit })
    &&& one_repair(d, "author.set_argument@1"@, "reduce or split authored flow without changing OutcomeId"@)
}

/// Pred, rite or header cap exceeded.
pub fn diagnose_cap(subject: &str, used: u32, limit: u32, message: String) -> (d: Diagnostic)
    ensures
        cap_diag(d, subject@, used, limit, message@),
{
    envelope(
        DiagnosticCode::CAP,
        FailureClass::Cap,
        message,
        blame_anchor("cap", subject),
        Vec::new(),
        Some(Counterexample::Cap { used, limit }),
        repair("author.set_argument@1", "reduce or split authored flow without changing OutcomeId"),
        cost(1, "cook"),
    )
}

/// The envelope of an agency failure.
pub open spec fn agency_diag(d: Diagnostic, source: Seq<char>, channel: Seq<char>, message: Seq<char>) -> bool {
    &&& envelope_is(
        d,
        DiagnosticCode::AGENCY@,
        FailureClass::Agency,
        message,
        spec_blame("agency"@, source),
        3,
        "validate"@,
    )
    &&& d.related@.len() == 0
    &&& d.witness matches Some(Counterexample::Agency { channel: c, source: s }) && c@ == channel && s@ == source
    &&& one_repair(d, "author.add_journey@1"@, "use public test-input adapter"@)
}

/// Agency claimed by a non-player, or claimed twice.
pub fn diagnose_agency(source: &str, channel: &str, message: String) -> (d: Diagnostic)
    ensures
        agency_diag(d, source@, channel@, message@),
{
    envelope(
        DiagnosticCode::AGENCY,
        FailureClass::Agency,
        message,
        blame_anchor("agency", source),
        Vec::new(),
        Some(Counterexample::Agency { channel: text(channel), source: text(source) }),
        repair("author.add_journey@1", "use public test-input adapter"),
        cost(3, "validate"),
    )
}

/// Provenance, license or CAS failure; the span and dependents are data.
pub fn diagnose_provenance(span: &str, dependents: &[&str], message: String) -> (d: Diagnostic)
    ensures
        envelope_is(
            d,
            DiagnosticCode::PROVENANCE@,
            FailureClass::Provenance,
            message@,
            spec_blame("provenance"@, span@),
            2,
            "prove"@,
        ),
        d.related@.len() == 0,
        d.witness matches Some(Counterexample::Provenance { span: s, dependents: deps }) && s@ == spec_as_data(span@)
            && deps@.len() == dependents@.len() && forall|i: int|
            0 <= i < dependents@.len() ==> (#[trigger] deps@[i])@ == spec_as_data(dependents@[i]@),
        one_repair(d, "reference.replace@1"@, "bind approved license evidence or remove blob"@),
{
    let deps = data_all(dependents);
    envelope(
        DiagnosticCode::PROVENANCE,
        FailureClass::Provenance,
        message,
        blame_anchor("provenance", span),
        Vec::new(),
        Some(Counterexample::Provenance { span: as_data(span), dependents: deps }),
        repair("reference.replace@1", "bind approved license evidence or remove blob"),
        cost(2, "prove"),
    )
}

/// Package allowlist or warp failure; the path is data.
pub fn diagnose_package(path: &str, reason: &str, message: String) -> (d: Diagnostic)
    ensures
        envelope_is(
            d,
            DiagnosticCode::PACKAGE@,
            FailureClass::Package,
            message@,
            spec_blame("package"@, path@),
            3,
            "package"@,
        ),
        d.related@.len() == 0,
        d.witness matches Some(Counterexample::Package { path: p, reason: r }) && p@ == spec_as_data(path@) && r@
            == reason@,
        one_repair(d, "author.remove@1"@, "remove authoring artifact from package graph"@),
{
    envelope(
        DiagnosticCode::PACKAGE,
        FailureClass::Package,
        message,
        blame_anchor("package", path),
        Vec::new(),
        Some(Counterexample::Package { path: as_data(path), reason: text(reason) }),
        repair("author.remove@1", "remove authoring artifact from package graph"),
        cost(3, "package"),
    )
}

/// Journey that cannot reach its assertion: the journey is blamed, the
/// blocked affordance related; the last state is data.
pub fn diagnose_journey(journey: &str, last_state: &str, blocked_affordance: &str, message: String) -> (d: Diagnostic)
    ensures
        envelope_is(
            d,
            DiagnosticCode::JOURNEY@,
            FailureClass::Journey,
            message@,
            spec_blame("journey"@, journey@),
            1,
            "eval"@,
        ),
        related_are(d, seq![spec_blame("affordance"@, blocked_affordance@)]),
        d.witness matches Some(Counterexample::Journey { last_state: l, blocked_affordance: b }) && l@
            == spec_as_data(last_state@) && b@ == blocked_affordance@,
        one_repair(d, "author.add_fact@1"@, "repair owned semantic operation from minimized witness"@),
{
    let related = one_anchor(blame_anchor("affordance", blocked_affordance));
    envelope(
        DiagnosticCode::JOURNEY,
        FailureClass::Journey,
        message,
        blame_anchor("journey", journey),
        related,
        Some(
            Counterexample::Journey { last_state: as_data(last_state), blocked_affordance: text(blocked_affordance) },
        ),
        repair("author.add_fact@1", "repair owned semantic operation from minimized witness"),
        cost(1, "eval"),
    )
}

/// Budget miss: the subject is blamed, the dominant loci (most expensive
/// first) related; savings are the overshoot, zero when within the cap.
pub fn diagnose_budget(subject: &str, dominant: &[&str], used: u32, cap: u32, message: String) -> (d: Diagnostic)
    ensures
        envelope_is(
            d,
            DiagnosticCode::BUDGET@,
            FailureClass::Budget,
            message@,
            spec_blame("budget"@, subject@),
            3,
            "eval"@,
        ),
        d.related@.len() == dominant@.len(),
        forall|i: int| 0 <= i < dominant@.len() ==> (#[trigger] d.related@[i]).0@ == spec_blame("locus"@, dominant@[i]@),
        d.witness matches Some(Counterexample::Budget { dominant: names, used: u, cap: c, estimated_savings: s })
            && string_views(names@) == str_views(dominant@) && u == used && c == cap && s == (if used > cap {
            used - cap
        } else {
            0
        }),
        one_repair(d, "author.remove@1"@, "reduce scoped cost without weakening budget"@),
{
    let savings = used.saturating_sub(cap);
    let related = blame_all("locus", dominant);
    envelope(
        DiagnosticCode::BUDGET,
        FailureClass::Budget,
        message,
        blame_anchor("budget", subject),
        related,
        Some(Counterexample::Budget { dominant: owned_all(dominant), used, cap, estimated_savings: savings }),
        repair("author.remove@1", "reduce scoped cost without weakening budget"),
        cost(3, "eval"),
    )
}

/// The envelope of a hash drift.
pub open spec fn drift_diag(d: Diagnostic, id: Seq<char>, expected: Seq<char>, actual: Seq<char>, message: Seq<char>) -> bool {
    &&& envelope_is(
        d,
        DiagnosticCode::HASH_DRIFT@,
        FailureClass::Reproducibility,
        message,
        spec_blame("module"@, id),
        2,
        "validate"@,
    )
    &&& d.related@.len() == 0
    &&& d.witness matches Some(Counterexample::Provenance { span, dependents }) && span@ == spec_as_data(id)
        && dependents@.len() == 2 && dependents@[0]@ == spec_as_data(expected) && dependents@[1]@ == spec_as_data(
        actual,
    )
    &&& one_repair(d, "module.import@1"@, "reject candidate and isolate nondeterministic input"@)
}

/// Hash or lock drift: the module is blamed; id and both hashes are data.
pub fn diagnose_hash_drift(id: &str, expected: &str, actual: &str, message: String) -> (d: Diagnostic)
    ensures
        drift_diag(d, id@, expected@, actual@, message@),
{
    let mut deps: Vec<String> = Vec::new();
    deps.push(as_data(expected));
    deps.push(as_data(actual));
    envelope(
        DiagnosticCode::HASH_DRIFT,
        FailureClass::Reproducibility,
        message,
        blame_anchor("module", id),
        Vec::new(),
        Some(Counterexample::Provenance { span: as_data(id), dependents: deps }),
        repair("module.import@1", "reject candidate and isolate nondeterministic input"),
        cost(2, "validate"),
    )
}

/// Primary anchor of a named failure: none for an empty token.
pub open spec fn named_primary(kind: Seq<char>, token: Seq<char>) -> Seq<u8> {
    if token.len() == 0 {
        zero16()
    } else {
        spec_blame(kind, token)
    }
}

fn named_anchor(kind: &str, token: &str) -> (r: AnchorId)
    ensures
        r.0@ == named_primary(kind@, token@),
{
    if token.is_empty() {
        AnchorId::zero()
    } else {
        blame_anchor(kind, token)
    }
}

/// Named schema or module failure with a blame token.
pub fn diagnose_named(code: &str, class: FailureClass, kind: &str, token: &str, message: String) -> (d: Diagnostic)
    ensures
        envelope_is(d, code@, class, message@, named_primary(kind@, token@), 1, "validate"@),
        d.related@.len() == 0,
        d.witness is None,
        d.legal_repairs@.len() == 0,
{
    envelope(code, class, message, named_anchor(kind, token), Vec::new(), None, Vec::new(), cost(1, "validate"))
}

/// The envelope of a schema failure blamed on an IR token.
pub open spec fn schema_env(d: Diagnostic, code: Seq<char>, token: Seq<char>, message: Seq<char>) -> bool {
    &&& envelope_is(d, code, FailureClass::Schema, message, named_primary("ir"@, token), 1, "validate"@)
    &&& d.related@.len() == 0
    &&& d.witness is None
    &&& d.legal_repairs@.len() == 0
}

fn schema_diag(code: &str, token: &str, message: String) -> (d: Diagnostic)
    ensures
        schema_env(d, code@, token@, message@),
{
    envelope(
        code,
        FailureClass::Schema,
        message,
        named_anchor("ir", token),
        Vec::new(),
        None,
        Vec::new(),
        cost(1, "validate"),
    )
}

/// Detail code and blame token of an IR error that gets a schema envelope.
pub open spec fn schema_route(e: IrError) -> (Seq<char>, Seq<char>) {
    match e {
        IrError::Parse(_) => ("IR.Parse"@, ""@),
        IrError::Ser(_) => ("IR.Ser"@, ""@),
        IrError::EmptyName => ("IR.EmptyName"@, "empty"@),
        IrError::NestedQuantifier => ("IR.NestedQuantifier"@, "quantifier"@),
        IrError::InvalidPhase(_) => ("IR.InvalidPhase"@, "phase"@),
        IrError::InvalidModuleVersion => ("IR.InvalidModuleVersion"@, "module"@),
        IrError::ImportCycle(ids) => ("IR.ImportCycle"@, if ids@.len() == 0 {
            "cycle"@
        } else {
            ids@[0]@
        }),
        IrError::DuplicateModule(id) => ("IR.DuplicateModule"@, id@),
        IrError::MissingModule(id) => ("IR.MissingModule"@, id@),
        IrError::TombstoneReuse(n) => ("IR.TombstoneReuse"@, n@),
        IrError::AliasCollision(n) => ("IR.AliasCollision"@, n@),
        IrError::UnboundParameter(n) => ("IR.UnboundParameter"@, n@),
        IrError::DuplicateAnchor(id) => ("IR.DuplicateAnchor"@, id@),
        IrError::MissingAnchor(n) => ("IR.MissingAnchor"@, n@),
        IrError::DuplicateObjectName(n) => ("IR.DuplicateObjectName"@, n@),
        IrError::ExportUnknown(n) => ("IR.ExportUnknown"@, n@),
        IrError::ParameterTypeMismatch(n) => ("IR.ParameterTypeMismatch"@, n@),
        IrError::UnexpandedPattern(id) => ("IR.UnexpandedPattern"@, id@),
        IrError::InvalidFeel { field, .. } => ("IR.InvalidFeel"@, field@),
        IrError::InvalidPresent { field, .. } => ("IR.InvalidPresent"@, field@),
        IrError::InvalidA11y { field, .. } => ("IR.InvalidA11y"@, field@),
        IrError::InvalidMindProgram(reason) => ("IR.InvalidMindProgram"@, reason@),
        IrError::UnsafeFarFact { locus, .. } => ("IR.UnsafeFarFact"@, locus@),
        _ => (""@, ""@),
    }
}

impl IrError {
    /// Shared envelope; the error's display text is its message. Caps,
    /// agency and hash drift get their own envelopes, the rest a schema one.
    pub fn to_diagnostic(&self) -> (d: Diagnostic)
        ensures
            match *self {
                IrError::InvalidRiteCap => cap_diag(d, "rite"@, 0, 1, self.spec_text()),
                IrError::DuplicateChannel => agency_diag(d, "player"@, "duplicate"@, self.spec_text()),
                IrError::HashDrift { id, expected, actual } => drift_diag(
                    d,
                    id@,
                    expected@,
                    actual@,
                    self.spec_text(),
                ),
                IrError::MindProgramCap { locus, actual, cap, .. } => cap_diag(
                    d,
                    locus@,
                    actual as u32,
                    cap as u32,
                    self.spec_text(),
                ),
                _ => schema_env(d, schema_route(*self).0, schema_route(*self).1, self.spec_text()),
            },
    {
        let message = self.to_text();
        match self {
            IrError::Parse(_) => schema_diag("IR.Parse", "", message),
            IrError::Ser(_) => schema_diag("IR.Ser", "", message),
            IrError::EmptyName => schema_diag("IR.EmptyName", "empty", message),
            IrError::NestedQuantifier => schema_diag("IR.NestedQuantifier", "quantifier", message),
            IrError::InvalidRiteCap => diagnose_cap("rite", 0, 1, message),
            IrError::InvalidPhase(_) => schema_diag("IR.InvalidPhase", "phase", message),
            IrError::DuplicateChannel => diagnose_agency("player", "duplicate", message),
            IrError::InvalidModuleVersion => schema_diag("IR.InvalidModuleVersion", "module", message),
            IrError::ImportCycle(ids) => {
                if ids.len() == 0 {
                    schema_diag("IR.ImportCycle", "cycle", message)
                } else {
                    schema_diag("IR.ImportCycle", ids[0].as_str(), message)
                }
            },
            IrError::HashDrift { id, expected, actual } => diagnose_hash_drift(
                id.as_str(),
                expected.as_str(),
                actual.as_str(),
                message,
            ),
            IrError::DuplicateModule(id) => schema_diag("IR.DuplicateModule", id.as_str(), message),
            IrError::MissingModule(id) => schema_diag("IR.MissingModule", id.as_str(), message),
            IrError::TombstoneReuse(n) => schema_diag("IR.TombstoneReuse", n.as_str(), message),
            IrError::AliasCollision(n) => schema_diag("IR.AliasCollision", n.as_str(), message),
            IrError::UnboundParameter(n) => schema_diag("IR.UnboundParameter", n.as_str(), message),
            IrError::DuplicateAnchor(id) => schema_diag("IR.DuplicateAnchor", id.as_str(), message),
            IrError::MissingAnchor(n) => schema_diag("IR.MissingAnchor", n.as_str(), message),
            IrError::DuplicateObjectName(n) => schema_diag("IR.DuplicateObjectName", n.as_str(), message),
            IrError::ExportUnknown(n) => schema_diag("IR.ExportUnknown", n.as_str(), message),
            IrError::ParameterTypeMismatch(n) => schema_diag("IR.ParameterTypeMismatch", n.as_str(), message),
            IrError::UnexpandedPattern(id) => schema_diag("IR.UnexpandedPattern", id.as_str(), message),
            IrError::InvalidFeel { field, .. } => schema_diag("IR.InvalidFeel", field.as_str(), message),
            IrError::InvalidPresent { field, .. } => schema_diag("IR.InvalidPresent", field.as_str(), message),
            IrError::InvalidA11y { field, .. } => schema_diag("IR.InvalidA11y", field.as_str(), message),
            IrError::MindProgramCap { locus, actual, cap, .. } => diagnose_cap(
                locus.as_str(),
                *actual as u32,
                *cap as u32,
                message,
            ),
            IrError::InvalidMindProgram(reason) => schema_diag("IR.InvalidMindProgram", reason.as_str(), message),
            IrError::UnsafeFarFact { locus, .. } => schema_diag("IR.UnsafeFarFact", locus.as_str(), message),
        }
    }
}

/// Unreachable journey, with a message naming the last state and the
/// blocked affordance.
pub fn diagnose_unreachable_journey(journey: &str, last_state: &str, blocked_affordance: &str) -> (d: Diagnostic)
    ensures
        envelope_is(
            d,
            DiagnosticCode::JOURNEY@,
            FailureClass::Journey,
            "Journey("@ + last_state@ + "->"@ + blocked_affordance@ + ")"@,
            spec_blame("journey"@, journey@),
            1,
            "eval"@,
        ),
        related_are(d, seq![spec_blame("affordance"@, blocked_affordance@)]),
        d.witness matches Some(Counterexample::Journey { last_state: l, blocked_affordance: b }) && l@
            == spec_as_data(last_state@) && b@ == blocked_affordance@,
        one_repair(d, "author.add_fact@1"@, "repair owned semantic operation from minimized witness"@),
{
    let mut m = concat("Journey(", last_state);
    m.append("->");
    m.append(blocked_affordance);
    m.append(")");
    diagnose_journey(journey, last_state, blocked_affordance, m)
}

/// Budget miss against the simulation budget `us_sim`, with a message
/// naming the cost and the cap.
pub fn diagnose_budget_miss(subject: &str, dominant: &[&str], used: u32, us_sim: u32) -> (d: Diagnostic)
    ensures
        envelope_is(
            d,
            DiagnosticCode::BUDGET@,
            FailureClass::Budget,
            "Budget("@ + spec_decimal(used as nat) + ">"@ + spec_decimal(us_sim as nat) + ")"@,
            spec_blame("budget"@, subject@),
            3,
            "eval"@,
        ),
        d.related@.len() == dominant@.len(),
        forall|i: int| 0 <= i < dominant@.len() ==> (#[trigger] d.related@[i]).0@ == spec_blame("locus"@, dominant@[i]@),
        d.witness matches Some(Counterexample::Budget { dominant: names, used: u, cap: c, estimated_savings: s })
            && string_views(names@) == str_views(dominant@) && u == used && c == us_sim && s == (if used > us_sim {
            used - us_sim
        } else {
            0
        }),
        one_repair(d, "author.remove@1"@, "reduce scoped cost without weakening budget"@),
{
    let mut m = text("Budget(");
    let u = decimal(used as u64);
    m.append(u.as_str());
    m.append(">");
    let c = decimal(us_sim as u64);
    m.append(c.as_str());
    m.append(")");
    diagnose_budget(subject, dominant, used, us_sim, m)
}

} // verus!
