//! Bounded material-graph compile and shader-permutation pruning. The graph
//! is cook input; the output is a permutation set for the presenter.
use vstd::prelude::*;

use crate::failure::CompileError;
use crate::ir_error::{pair_text, IrError};
use crate::present::{bad_ref, graph_fault, node_fault, nodes_fault, MaterialGraph, MaterialNode, QualityTier};

verus! {

/// Compiled shader permutation. Bits are stable across OS.
#[derive(Copy, Clone, PartialEq, Eq, Structural, PartialOrd, Ord, Hash, Debug)]
pub struct ShaderPerm {
    /// Sampled albedo.
    pub albedo_tex: bool,
    /// Metalness/roughness from the graph (not a constant).
    pub metal_rough: bool,
    /// Emissive output is bound.
    pub emissive: bool,
    /// Alpha-tested / masked pass.
    pub alpha_test: bool,
}

/// `1` for true, `0` for false.
pub open spec fn bit(b: bool) -> int {
    if b {
        1
    } else {
        0
    }
}

/// Position of a permutation in the derived order: fields compared in
/// declaration order, `false` before `true`.
pub open spec fn perm_key(p: ShaderPerm) -> int {
    8 * bit(p.albedo_tex) + 4 * bit(p.metal_rough) + 2 * bit(p.emissive) + bit(p.alpha_test)
}

/// Unlit constant albedo: no bit set.
pub open spec fn spec_unlit() -> ShaderPerm {
    ShaderPerm { albedo_tex: false, metal_rough: false, emissive: false, alpha_test: false }
}

fn bit_u8(b: bool) -> (r: u8)
    ensures
        r == bit(b),
{
    if b {
        1
    } else {
        0
    }
}

impl ShaderPerm {
    /// Packed 4-bit id: albedo, metal/rough, emissive, alpha from bit 0 up.
    pub fn bits(self) -> (r: u8)
        ensures
            r == bit(self.albedo_tex) + 2 * bit(self.metal_rough) + 4 * bit(self.emissive) + 8 * bit(
                self.alpha_test,
            ),
    {
        let a = bit_u8(self.albedo_tex);
        let m = bit_u8(self.metal_rough);
        let e = bit_u8(self.emissive);
        let t = bit_u8(self.alpha_test);
        assert(a | (m << 1u8) | (e << 2u8) | (t << 3u8) == a + 2 * m + 4 * e + 8 * t) by (bit_vector)
            requires
                a <= 1,
                m <= 1,
                e <= 1,
                t <= 1,
        ;
        a | (m << 1u8) | (e << 2u8) | (t << 3u8)
    }

    /// Unlit constant albedo.
    pub fn unlit() -> (r: ShaderPerm)
        ensures
            r == spec_unlit(),
    {
        ShaderPerm { albedo_tex: false, metal_rough: false, emissive: false, alpha_test: false }
    }
}

/// Every node input points strictly backward.
pub open spec fn refs_backward(nodes: Seq<MaterialNode>) -> bool {
    forall|i: int|
        0 <= i < nodes.len() ==> match #[trigger] nodes[i] {
            MaterialNode::Mul { a, b } => a < i && b < i,
            MaterialNode::Lerp { a, b, t } => a < i && b < i && t < i,
            MaterialNode::Clamp { x, .. } => x < i,
            _ => true,
        }
}

/// Node `idx` reads a texture sample, itself or through its inputs.
pub open spec fn uses_sample(nodes: Seq<MaterialNode>, idx: int) -> bool
    decreases idx,
{
    if idx < 0 || idx >= nodes.len() {
        false
    } else {
        match nodes[idx] {
            MaterialNode::Sample { .. } => true,
            MaterialNode::Mul { a, b } => (a < idx && uses_sample(nodes, a as int)) || (b < idx
                && uses_sample(nodes, b as int)),
            MaterialNode::Lerp { a, b, t } => (a < idx && uses_sample(nodes, a as int)) || (b < idx
                && uses_sample(nodes, b as int)) || (t < idx && uses_sample(nodes, t as int)),
            MaterialNode::Clamp { x, .. } => x < idx && uses_sample(nodes, x as int),
            MaterialNode::Constant { .. } => false,
        }
    }
}

/// The permutation a valid graph compiles to: a sampled albedo; metal/rough
/// when either output samples or is not a constant; the optional outputs.
pub open spec fn spec_perm(g: MaterialGraph) -> ShaderPerm {
    let n = g.nodes@;
    ShaderPerm {
        albedo_tex: uses_sample(n, g.albedo as int),
        metal_rough: uses_sample(n, g.metalness as int) || uses_sample(n, g.roughness as int)
            || !(n[g.metalness as int] is Constant) || !(n[g.roughness as int] is Constant),
        emissive: g.emissive is Some,
        alpha_test: g.alpha is Some,
    }
}

/// No fault among the first `k` nodes means each of them points backward.
proof fn lemma_no_fault_backward(nodes: Seq<MaterialNode>, n: int, k: nat)
    requires
        k <= nodes.len(),
        nodes_fault(nodes, n, k) is None,
    ensures
        forall|i: int| 0 <= i < k ==> #[trigger] node_fault(nodes[i], i, n) is None,
    decreases k,
{
    if k > 0 {
        lemma_no_fault_backward(nodes, n, (k - 1) as nat);
    }
}

proof fn lemma_valid_backward(g: MaterialGraph)
    requires
        graph_fault(g) is None,
    ensures
        refs_backward(g.nodes@),
        g.albedo < g.nodes@.len(),
        g.metalness < g.nodes@.len(),
        g.roughness < g.nodes@.len(),
{
    let nodes = g.nodes@;
    let n = nodes.len() as int;
    lemma_no_fault_backward(nodes, n, n as nat);
    assert forall|i: int| 0 <= i < nodes.len() implies match #[trigger] nodes[i] {
        MaterialNode::Mul { a, b } => a < i && b < i,
        MaterialNode::Lerp { a, b, t } => a < i && b < i && t < i,
        MaterialNode::Clamp { x, .. } => x < i,
        _ => true,
    } by {
        assert(node_fault(nodes[i], i, n) is None);
    }
}

fn uses_sample_exec(nodes: &Vec<MaterialNode>, idx: u8) -> (r: bool)
    requires
        refs_backward(nodes@),
    ensures
        r == uses_sample(nodes@, idx as int),
    decreases idx,
{
    if idx as usize >= nodes.len() {
        return false;
    }
    match nodes[idx as usize] {
        MaterialNode::Sample { .. } => true,
        MaterialNode::Mul { a, b } => uses_sample_exec(nodes, a) || uses_sample_exec(nodes, b),
        MaterialNode::Lerp { a, b, t } => uses_sample_exec(nodes, a) || uses_sample_exec(nodes, b)
            || uses_sample_exec(nodes, t),
        MaterialNode::Clamp { x, .. } => uses_sample_exec(nodes, x),
        MaterialNode::Constant { .. } => false,
    }
}

/// Compile a graph to a permutation. A graph that fails validation fails
/// with a header error carrying the validation message.
pub fn compile_material(graph: &MaterialGraph) -> (r: Result<ShaderPerm, CompileError>)
    ensures
        graph.id@.len() == 0 ==> (r matches Err(CompileError::Header(h)) && h@
            == IrError::EmptyName.spec_text()),
        graph.id@.len() > 0 ==> match graph_fault(*graph) {
            None => r == Ok::<ShaderPerm, CompileError>(spec_perm(*graph)),
            Some(f) => r matches Err(CompileError::Header(h)) && h@ == pair_text(
                "InvalidPresent"@,
                f.0,
                f.1,
            ),
        },
{
    match graph.validate() {
        Err(e) => {
            return Err(CompileError::Header(e.to_text()));
        },
        Ok(()) => {},
    }
    proof {
        lemma_valid_backward(*graph);
    }
    let mut albedo_tex = false;
    let mut metal_rough = false;
    if uses_sample_exec(&graph.nodes, graph.albedo) {
        albedo_tex = true;
    }
    if uses_sample_exec(&graph.nodes, graph.metalness) || uses_sample_exec(&graph.nodes, graph.roughness) {
        metal_rough = true;
    }
    let metal_const = matches!(graph.nodes[graph.metalness as usize], MaterialNode::Constant { .. });
    let rough_const = matches!(graph.nodes[graph.roughness as usize], MaterialNode::Constant { .. });
    if !metal_const || !rough_const {
        metal_rough = true;
    }
    Ok(ShaderPerm {
        albedo_tex,
        metal_rough,
        emissive: graph.emissive.is_some(),
        alpha_test: graph.alpha.is_some(),
    })
}

/// A permutation with what `tier` cannot afford stripped: Low drops
/// metal/rough and emissive, Medium drops emissive.
pub open spec fn strip(p: ShaderPerm, tier: QualityTier) -> ShaderPerm {
    match tier {
        QualityTier::Low => ShaderPerm { metal_rough: false, emissive: false, ..p },
        QualityTier::Medium => ShaderPerm { emissive: false, ..p },
        QualityTier::High => p,
    }
}

/// Strictly ascending in the permutation order (so no duplicates).
pub open spec fn perms_ascending(s: Seq<ShaderPerm>) -> bool {
    forall|i: int, j: int| 0 <= i < j < s.len() ==> perm_key(#[trigger] s[i]) < perm_key(#[trigger] s[j])
}

/// `q` is what pruning keeps from `used`: a stripped used permutation, or
/// the unlit one when nothing was used.
pub open spec fn kept(used: Seq<ShaderPerm>, tier: QualityTier, q: ShaderPerm) -> bool {
    (exists|i: int| 0 <= i < used.len() && q == strip(#[trigger] used[i], tier)) || (used.len() == 0
        && q == spec_unlit())
}

fn strip_exec(p: ShaderPerm, tier: QualityTier) -> (r: ShaderPerm)
    ensures
        r == strip(p, tier),
{
    match tier {
        QualityTier::Low => ShaderPerm { metal_rough: false, emissive: false, ..p },
        QualityTier::Medium => ShaderPerm { emissive: false, ..p },
        QualityTier::High => p,
    }
}

fn key_exec(p: ShaderPerm) -> (r: u8)
    ensures
        r == perm_key(p),
{
    8 * bit_u8(p.albedo_tex) + 4 * bit_u8(p.metal_rough) + 2 * bit_u8(p.emissive) + bit_u8(p.alpha_test)
}

/// Insert `p` into an ascending set of permutations, unless present.
fn insert_perm(out: &mut Vec<ShaderPerm>, p: ShaderPerm)
    requires
        perms_ascending(old(out)@),
    ensures
        perms_ascending(final(out)@),
        forall|q: ShaderPerm| final(out)@.contains(q) <==> (old(out)@.contains(q) || q == p),
{
    let k = key_exec(p);
    let mut i: usize = 0;
    while i < out.len() && key_exec(out[i]) < k
        invariant
            0 <= i <= out@.len(),
            k == perm_key(p),
            perms_ascending(out@),
            forall|j: int| 0 <= j < i ==> perm_key(#[trigger] out@[j]) < k,
        decreases out@.len() - i,
    {
        i = i + 1;
    }
    if i < out.len() && key_exec(out[i]) == k {
        proof {
            assert(out@[i as int] == p);
        }
        return;
    }
    let ghost before = out@;
    out.insert(i, p);
    proof {
        assert forall|a: int, b: int| 0 <= a < b < out@.len() implies perm_key(#[trigger] out@[a])
            < perm_key(#[trigger] out@[b]) by {
            if b < i {
                assert(perm_key(before[a]) < perm_key(before[b]));
            } else if a > i {
                assert(perm_key(before[a - 1]) < perm_key(before[b - 1]));
            } else if a == i {
                assert(perm_key(before[b - 1]) >= k);
                if b - 1 > i {
                    assert(perm_key(before[i as int]) < perm_key(before[b - 1]));
                }
            } else {
                assert(perm_key(before[a]) < k);
            }
        }
        assert forall|q: ShaderPerm| out@.contains(q) <==> (before.contains(q) || q == p) by {
            if out@.contains(q) {
                let j = choose|j: int| 0 <= j < out@.len() && out@[j] == q;
                if j < i {
                    assert(before[j] == q);
                } else if j > i {
                    assert(before[j - 1] == q);
                }
            }
            if before.contains(q) {
                let j = choose|j: int| 0 <= j < before.len() && before[j] == q;
                if j < i {
                    assert(out@[j] == q);
                } else {
                    assert(out@[j + 1] == q);
                }
            }
            if q == p {
                assert(out@[i as int] == p);
            }
        }
    }
}

/// Keep only permutations that authored graphs actually use, stripped for
/// the tier, ascending and without duplicates; the unlit permutation when
/// nothing was used.
pub fn prune_permutations(used: &[ShaderPerm], tier: QualityTier) -> (r: Vec<ShaderPerm>)
    ensures
        perms_ascending(r@),
        forall|q: ShaderPerm| r@.contains(q) <==> kept(used@, tier, q),
{
    let mut out: Vec<ShaderPerm> = Vec::new();
    let mut i: usize = 0;
    while i < used.len()
        invariant
            0 <= i <= used@.len(),
            perms_ascending(out@),
            forall|q: ShaderPerm|
                out@.contains(q) <==> exists|j: int| 0 <= j < i && q == strip(#[trigger] used@[j], tier),
        decreases used@.len() - i,
    {
        let p = strip_exec(used[i], tier);
        let ghost before = out@;
        insert_perm(&mut out, p);
        proof {
            assert forall|q: ShaderPerm|
                out@.contains(q) <==> exists|j: int| 0 <= j < i + 1 && q == strip(#[trigger] used@[j], tier) by {
                if out@.contains(q) && q != p {
                    assert(before.contains(q));
                }
                if exists|j: int| 0 <= j < i + 1 && q == strip(#[trigger] used@[j], tier) {
                    let j = choose|j: int| 0 <= j < i + 1 && q == strip(#[trigger] used@[j], tier);
                    if j < i {
                        assert(before.contains(q));
                    }
                }
            }
        }
        i = i + 1;
    }
    if out.len() == 0 {
        proof {
            if used@.len() > 0 {
                let q0 = strip(used@[0], tier);
                assert(exists|j: int| 0 <= j < i && q0 == strip(#[trigger] used@[j], tier));
                assert(out@.contains(q0));
            }
        }
        out.push(ShaderPerm::unlit());
        proof {
            assert forall|q: ShaderPerm| out@.contains(q) <==> kept(used@, tier, q) by {
                if out@.contains(q) {
                    assert(out@[0] == q);
                }
                if q == spec_unlit() {
                    assert(out@[0] == q);
                }
            }
        }
    } else {
        proof {
            if used@.len() == 0 {
                assert(out@.contains(out@[0]));
            }
        }
    }
    out
}

} // verus!
