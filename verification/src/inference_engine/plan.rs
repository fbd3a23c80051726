//! Resolution of manifest entries into an execution plan.
//!
//! The manifest is walked once. The fixed names are recorded as they are met;
//! per-layer names are gathered by layer number; and a layer enters the plan
//! only if all twelve of its roles were found. The plan lists the layers by
//! ascending number.

use vstd::prelude::*;
use crate::inference_engine::layer_name::{parse_layer_entry, parse_layer_name, LayerField};
use crate::manifest::{Layer, Manifest};
use crate::model::names::{
    L_FINAL_NORM_BIAS, L_FINAL_NORM_WEIGHT, L_LM_HEAD, L_POS_EMB, L_TOK_EMB,
};
use crate::util::text::str_eq;

verus! {

/// The manifest indices of the twelve tensors of one transformer block.
#[derive(Debug, Copy, Clone, PartialEq, Eq, Structural)]
pub struct LayerSpec {
    pub ln1_weight: usize,
    pub ln1_bias: usize,
    pub attn_weight: usize,
    pub attn_bias: usize,
    pub attn_proj_weight: usize,
    pub attn_proj_bias: usize,
    pub ln2_weight: usize,
    pub ln2_bias: usize,
    pub ffn_weight: usize,
    pub ffn_bias: usize,
    pub ffn_proj_weight: usize,
    pub ffn_proj_bias: usize,
}

/// The roles of one layer that have been found so far.
#[derive(Debug, Copy, Clone, PartialEq, Eq, Structural)]
pub struct PartialLayer {
    pub ln1_weight: Option<usize>,
    pub ln1_bias: Option<usize>,
    pub attn_weight: Option<usize>,
    pub attn_bias: Option<usize>,
    pub attn_proj_weight: Option<usize>,
    pub attn_proj_bias: Option<usize>,
    pub ln2_weight: Option<usize>,
    pub ln2_bias: Option<usize>,
    pub ffn_weight: Option<usize>,
    pub ffn_bias: Option<usize>,
    pub ffn_proj_weight: Option<usize>,
    pub ffn_proj_bias: Option<usize>,
}

impl PartialLayer {
    /// A layer of which no role has been found.
    pub open spec fn empty() -> PartialLayer {
        PartialLayer {
            ln1_weight: None,
            ln1_bias: None,
            attn_weight: None,
            attn_bias: None,
            attn_proj_weight: None,
            attn_proj_bias: None,
            ln2_weight: None,
            ln2_bias: None,
            ffn_weight: None,
            ffn_bias: None,
            ffn_proj_weight: None,
            ffn_proj_bias: None,
        }
    }

    /// This layer with `idx` recorded for `field`.
    pub open spec fn with(self, field: LayerField, idx: usize) -> PartialLayer {
        match field {
            LayerField::Ln1Weight => PartialLayer { ln1_weight: Some(idx), ..self },
            LayerField::Ln1Bias => PartialLayer { ln1_bias: Some(idx), ..self },
            LayerField::AttnWeight => PartialLayer { attn_weight: Some(idx), ..self },
            LayerField::AttnBias => PartialLayer { attn_bias: Some(idx), ..self },
            LayerField::AttnProjWeight => PartialLayer { attn_proj_weight: Some(idx), ..self },
            LayerField::AttnProjBias => PartialLayer { attn_proj_bias: Some(idx), ..self },
            LayerField::Ln2Weight => PartialLayer { ln2_weight: Some(idx), ..self },
            LayerField::Ln2Bias => PartialLayer { ln2_bias: Some(idx), ..self },
            LayerField::FfnWeight => PartialLayer { ffn_weight: Some(idx), ..self },
            LayerField::FfnBias => PartialLayer { ffn_bias: Some(idx), ..self },
            LayerField::FfnProjWeight => PartialLayer { ffn_proj_weight: Some(idx), ..self },
            LayerField::FfnProjBias => PartialLayer { ffn_proj_bias: Some(idx), ..self },
        }
    }

    /// Whether all twelve roles have been found.
    pub open spec fn is_complete(self) -> bool {
        &&& self.ln1_weight is Some
        &&& self.ln1_bias is Some
        &&& self.attn_weight is Some
        &&& self.attn_bias is Some
        &&& self.attn_proj_weight is Some
        &&& self.attn_proj_bias is Some
        &&& self.ln2_weight is Some
        &&& self.ln2_bias is Some
        &&& self.ffn_weight is Some
        &&& self.ffn_bias is Some
        &&& self.ffn_proj_weight is Some
        &&& self.ffn_proj_bias is Some
    }

    /// The complete layer, role by role.
    pub open spec fn spec_of(self) -> LayerSpec {
        LayerSpec {
            ln1_weight: self.ln1_weight->0,
            ln1_bias: self.ln1_bias->0,
            attn_weight: self.attn_weight->0,
            attn_bias: self.attn_bias->0,
            attn_proj_weight: self.attn_proj_weight->0,
            attn_proj_bias: self.attn_proj_bias->0,
            ln2_weight: self.ln2_weight->0,
            ln2_bias: self.ln2_bias->0,
            ffn_weight: self.ffn_weight->0,
            ffn_bias: self.ffn_bias->0,
            ffn_proj_weight: self.ffn_proj_weight->0,
            ffn_proj_bias: self.ffn_proj_bias->0,
        }
    }

    /// A layer of which no role has been found.
    pub fn new() -> (p: Self)
        ensures
            p == Self::empty(),
    {
        PartialLayer {
            ln1_weight: None,
            ln1_bias: None,
            attn_weight: None,
            attn_bias: None,
            attn_proj_weight: None,
            attn_proj_bias: None,
            ln2_weight: None,
            ln2_bias: None,
            ffn_weight: None,
            ffn_bias: None,
            ffn_proj_weight: None,
            ffn_proj_bias: None,
        }
    }

    /// Records `idx` for `field`, replacing what was recorded before.
    pub fn set(&mut self, field: LayerField, idx: usize)
        ensures
            *final(self) == old(self).with(field, idx),
    {
        match field {
            LayerField::Ln1Weight => self.ln1_weight = Some(idx),
            LayerField::Ln1Bias => self.ln1_bias = Some(idx),
            LayerField::AttnWeight => self.attn_weight = Some(idx),
            LayerField::AttnBias => self.attn_bias = Some(idx),
            LayerField::AttnProjWeight => self.attn_proj_weight = Some(idx),
            LayerField::AttnProjBias => self.attn_proj_bias = Some(idx),
            LayerField::Ln2Weight => self.ln2_weight = Some(idx),
            LayerField::Ln2Bias => self.ln2_bias = Some(idx),
            LayerField::FfnWeight => self.ffn_weight = Some(idx),
            LayerField::FfnBias => self.ffn_bias = Some(idx),
            LayerField::FfnProjWeight => self.ffn_proj_weight = Some(idx),
            LayerField::FfnProjBias => self.ffn_proj_bias = Some(idx),
        }
    }

    /// The complete layer, or `None` where a role is missing.
    pub fn into_spec(self) -> (r: Option<LayerSpec>)
        ensures
            r is Some <==> self.is_complete(),
            r matches Some(spec) ==> spec == self.spec_of(),
    {
        Some(
            LayerSpec {
                ln1_weight: self.ln1_weight?,
                ln1_bias: self.ln1_bias?,
                attn_weight: self.attn_weight?,
                attn_bias: self.attn_bias?,
                attn_proj_weight: self.attn_proj_weight?,
                attn_proj_bias: self.attn_proj_bias?,
                ln2_weight: self.ln2_weight?,
                ln2_bias: self.ln2_bias?,
                ffn_weight: self.ffn_weight?,
                ffn_bias: self.ffn_bias?,
                ffn_proj_weight: self.ffn_proj_weight?,
                ffn_proj_bias: self.ffn_proj_bias?,
            },
        )
    }
}

impl Default for PartialLayer {
    fn default() -> (p: Self)
        ensures
            p == Self::empty(),
    {
        PartialLayer::new()
    }
}

/// Names of the tensors of a manifest, in manifest order.
pub open spec fn names_of(layers: Seq<Layer>) -> Seq<Seq<char>> {
    Seq::new(layers.len(), |i: int| layers[i].name@)
}

/// Index of the last of the first `upto` names that equals `target`.
pub open spec fn last_named(names: Seq<Seq<char>>, upto: int, target: Seq<char>) -> Option<usize>
    decreases upto,
{
    if upto <= 0 {
        None
    } else if names[upto - 1] == target {
        Some((upto - 1) as usize)
    } else {
        last_named(names, upto - 1, target)
    }
}

/// Index of the last of the first `upto` names that names role `field` of
/// layer `n`.
pub open spec fn role_index(names: Seq<Seq<char>>, upto: int, n: nat, field: LayerField) -> Option<
    usize,
>
    decreases upto,
{
    if upto <= 0 {
        None
    } else if parse_layer_name(names[upto - 1]) == Some((n, field)) {
        Some((upto - 1) as usize)
    } else {
        role_index(names, upto - 1, n, field)
    }
}

/// The roles of layer `n` as the first `upto` names give them.
pub open spec fn roles_of(names: Seq<Seq<char>>, upto: int, n: nat) -> PartialLayer {
    PartialLayer {
        ln1_weight: role_index(names, upto, n, LayerField::Ln1Weight),
        ln1_bias: role_index(names, upto, n, LayerField::Ln1Bias),
        attn_weight: role_index(names, upto, n, LayerField::AttnWeight),
        attn_bias: role_index(names, upto, n, LayerField::AttnBias),
        attn_proj_weight: role_index(names, upto, n, LayerField::AttnProjWeight),
        attn_proj_bias: role_index(names, upto, n, LayerField::AttnProjBias),
        ln2_weight: role_index(names, upto, n, LayerField::Ln2Weight),
        ln2_bias: role_index(names, upto, n, LayerField::Ln2Bias),
        ffn_weight: role_index(names, upto, n, LayerField::FfnWeight),
        ffn_bias: role_index(names, upto, n, LayerField::FfnBias),
        ffn_proj_weight: role_index(names, upto, n, LayerField::FfnProjWeight),
        ffn_proj_bias: role_index(names, upto, n, LayerField::FfnProjBias),
    }
}

/// Whether the first `upto` names mention layer `n` at all.
pub open spec fn mentions(names: Seq<Seq<char>>, upto: int, n: nat) -> bool {
    roles_of(names, upto, n) != PartialLayer::empty()
}

/// The execution plan of a model.
#[derive(Debug, Clone)]
pub struct LayerPlan {
    /// Token embedding.
    pub embedding: Option<usize>,
    /// Positional embedding.
    pub positional: Option<usize>,
    /// Output head.
    pub output: Option<usize>,
    pub final_norm_weight: Option<usize>,
    pub final_norm_bias: Option<usize>,
    /// The complete layers, by ascending layer number.
    pub layers: Vec<LayerSpec>,
    /// Number of each layer of `layers`, as its names give it.
    pub layer_numbers: Vec<usize>,
    /// How many layers were mentioned by some name and left out for want of
    /// a role.
    pub dropped_layers: usize,
}

/// The groups gathered from the first `upto` names: ordered by layer number,
/// one for every layer that was mentioned, each holding the roles found.
spec fn groups_ok(groups: Seq<(usize, PartialLayer)>, names: Seq<Seq<char>>, upto: int) -> bool {
    &&& forall|a: int, b: int| 0 <= a < b < groups.len() ==> groups[a].0 < groups[b].0
    &&& forall|k: int|
        0 <= k < groups.len() ==> {
            &&& (#[trigger] groups[k]).1 == roles_of(names, upto, groups[k].0 as nat)
            &&& mentions(names, upto, groups[k].0 as nat)
        }
    &&& forall|n: nat| #[trigger] mentions(names, upto, n) ==> has_key(groups, n)
}

/// Whether a group for layer `n` exists.
spec fn has_key(groups: Seq<(usize, PartialLayer)>, n: nat) -> bool {
    exists|k: int| 0 <= k < groups.len() && (#[trigger] groups[k]).0 == n
}

/// Records role `field` of layer `n`, found at manifest index `idx`, in the
/// groups.
fn record_role(
    groups: &mut Vec<(usize, PartialLayer)>,
    n: usize,
    field: LayerField,
    idx: usize,
    Ghost(names): Ghost<Seq<Seq<char>>>,
)
    requires
        groups_ok(old(groups)@, names, idx as int),
        0 <= idx < names.len(),
        parse_layer_name(names[idx as int]) == Some((n as nat, field)),
    ensures
        groups_ok(final(groups)@, names, idx + 1),
{
    let ghost before = groups@;
    let mut p: usize = 0;
    while p < groups.len() && groups[p].0 < n
        invariant
            p <= groups@.len(),
            groups@ == before,
            forall|k: int| 0 <= k < p ==> (#[trigger] groups@[k]).0 < n,
        decreases groups@.len() - p,
    {
        p += 1;
    }
    if p < groups.len() && groups[p].0 == n {
        let mut g: (usize, PartialLayer) = groups[p];
        g.1.set(field, idx);
        groups.set(p, g);
        proof {
            let after = groups@;
            assert forall|k: int| 0 <= k < after.len() implies {
                &&& (#[trigger] after[k]).1 == roles_of(names, idx + 1, after[k].0 as nat)
                &&& mentions(names, idx + 1, after[k].0 as nat)
            } by {
                if k != p {
                    assert(before[k].0 != n);
                    assert(after[k] == before[k]);
                }
            }
            assert forall|m: nat| #[trigger] mentions(names, idx + 1, m) implies has_key(after, m) by {
                if m == n {
                    assert(after[p as int].0 == n);
                } else {
                    assert(mentions(names, idx as int, m));
                    let k = choose|k: int| 0 <= k < before.len() && (#[trigger] before[k]).0 == m;
                    assert(after[k].0 == m);
                }
            }
        }
    } else {
        let mut fresh = PartialLayer::new();
        fresh.set(field, idx);
        assert(!has_key(before, n as nat)) by {
            if has_key(before, n as nat) {
                let k = choose|k: int| 0 <= k < before.len() && (#[trigger] before[k]).0 == n;
                if k < p {
                } else if k > p {
                    assert(before[p as int].0 < before[k].0);
                }
            }
        }
        assert(!mentions(names, idx as int, n as nat));
        groups.insert(p, (n, fresh));
        proof {
            let after = groups@;
            assert(after =~= before.insert(p as int, (n, fresh)));
            assert forall|a: int, b: int| 0 <= a < b < after.len() implies after[a].0 < after[b].0 by {
                if a < p && b > p {
                    assert(after[a] == before[a]);
                    assert(after[b] == before[b - 1]);
                    if b - 1 > p {
                        assert(before[p as int].0 < before[b - 1].0);
                    }
                }
            }
            assert forall|k: int| 0 <= k < after.len() implies {
                &&& (#[trigger] after[k]).1 == roles_of(names, idx + 1, after[k].0 as nat)
                &&& mentions(names, idx + 1, after[k].0 as nat)
            } by {
                if k < p {
                    assert(after[k] == before[k]);
                } else if k > p {
                    assert(after[k] == before[k - 1]);
                    assert(before[k - 1].0 != n);
                }
            }
            assert forall|m: nat| #[trigger] mentions(names, idx + 1, m) implies has_key(after, m) by {
                if m == n {
                    assert(after[p as int].0 == n);
                } else {
                    assert(mentions(names, idx as int, m));
                    let k = choose|k: int| 0 <= k < before.len() && (#[trigger] before[k]).0 == m;
                    if k < p {
                        assert(after[k].0 == m);
                    } else {
                        assert(after[k + 1] == before[k]);
                    }
                }
            }
        }
    }
}

/// A name that names no role leaves the groups as they are.
proof fn lemma_skip_name(groups: Seq<(usize, PartialLayer)>, names: Seq<Seq<char>>, idx: int)
    requires
        groups_ok(groups, names, idx),
        0 <= idx < names.len(),
        parse_layer_name(names[idx]) is None,
    ensures
        groups_ok(groups, names, idx + 1),
{
    assert forall|n: nat| roles_of(names, idx + 1, n) == roles_of(names, idx, n) by {}
    assert forall|n: nat| #[trigger] mentions(names, idx + 1, n) implies has_key(groups, n) by {
        assert(mentions(names, idx, n));
    }
}

impl LayerPlan {
    /// Whether all twelve roles of layer `n` are named in `names`.
    pub open spec fn complete(names: Seq<Seq<char>>, n: nat) -> bool {
        roles_of(names, names.len() as int, n).is_complete()
    }

    /// Whether this plan is the plan of a manifest with the names `names`.
    ///
    /// Each fixed role is the last entry of its name. The layers are those
    /// whose twelve roles are all named, by ascending layer number, each role
    /// being the last entry that names it. Layers that are mentioned but
    /// incomplete are counted, not listed.
    pub open spec fn resolves(self, names: Seq<Seq<char>>) -> bool {
        let len = names.len() as int;
        &&& self.embedding == last_named(names, len, L_TOK_EMB@)
        &&& self.positional == last_named(names, len, L_POS_EMB@)
        &&& self.output == last_named(names, len, L_LM_HEAD@)
        &&& self.final_norm_weight == last_named(names, len, L_FINAL_NORM_WEIGHT@)
        &&& self.final_norm_bias == last_named(names, len, L_FINAL_NORM_BIAS@)
        &&& self.layers@.len() == self.layer_numbers@.len()
        &&& forall|a: int, b: int|
            0 <= a < b < self.layer_numbers@.len() ==> self.layer_numbers@[a] < self.layer_numbers@[b]
        &&& forall|k: int|
            0 <= k < self.layers@.len() ==> {
                &&& Self::complete(names, (#[trigger] self.layer_numbers@[k]) as nat)
                &&& self.layers@[k] == roles_of(names, len, self.layer_numbers@[k] as nat).spec_of()
            }
        &&& forall|n: nat| #[trigger]
            Self::complete(names, n) ==> exists|k: int|
                0 <= k < self.layer_numbers@.len() && (#[trigger] self.layer_numbers@[k]) == n
        &&& self.dropped_layers == Set::new(
            |n: nat| mentions(names, len, n) && !Self::complete(names, n),
        ).len()
    }

    /// Resolves the entries of `manifest` into a plan.
    ///
    /// A manifest that names no complete layer yields a plan without layers;
    /// whether a plan can run is judged when it is run.
    pub fn from_manifest(manifest: &Manifest) -> (plan: Self)
        ensures
            plan.resolves(names_of(manifest.layers@)),
    {
        let ghost names = names_of(manifest.layers@);
        let mut embedding: Option<usize> = None;
        let mut positional: Option<usize> = None;
        let mut output: Option<usize> = None;
        let mut final_norm_weight: Option<usize> = None;
        let mut final_norm_bias: Option<usize> = None;
        let mut groups: Vec<(usize, PartialLayer)> = Vec::new();
        let count: usize = manifest.layers.len();

        let mut idx: usize = 0;
        while idx < count
            invariant
                idx <= count,
                count == manifest.layers@.len(),
                names == names_of(manifest.layers@),
                embedding == last_named(names, idx as int, L_TOK_EMB@),
                positional == last_named(names, idx as int, L_POS_EMB@),
                output == last_named(names, idx as int, L_LM_HEAD@),
                final_norm_weight == last_named(names, idx as int, L_FINAL_NORM_WEIGHT@),
                final_norm_bias == last_named(names, idx as int, L_FINAL_NORM_BIAS@),
                groups_ok(groups@, names, idx as int),
            decreases count - idx,
        {
            let name: &str = manifest.layers[idx].name.as_str();
            assert(name@ == names[idx as int]);
            if str_eq(name, L_TOK_EMB) {
                embedding = Some(idx);
            }
            if str_eq(name, L_POS_EMB) {
                positional = Some(idx);
            }
            if str_eq(name, L_LM_HEAD) {
                output = Some(idx);
            }
            if str_eq(name, L_FINAL_NORM_WEIGHT) {
                final_norm_weight = Some(idx);
            }
            if str_eq(name, L_FINAL_NORM_BIAS) {
                final_norm_bias = Some(idx);
            }
            match parse_layer_entry(name) {
                Some((layer_idx, field)) => {
                    record_role(&mut groups, layer_idx, field, idx, Ghost(names));
                },
                None => {
                    proof {
                        lemma_skip_name(groups@, names, idx as int);
                    }
                },
            }
            idx += 1;
        }

        let mut layers: Vec<LayerSpec> = Vec::new();
        let mut layer_numbers: Vec<usize> = Vec::new();
        let mut dropped_layers: usize = 0;
        let ghost len = names.len() as int;
        let mut k: usize = 0;
        while k < groups.len()
            invariant
                k <= groups@.len(),
                len == names.len(),
                groups_ok(groups@, names, len),
                layers@.len() == layer_numbers@.len(),
                layers@.len() + dropped_layers == k,
                forall|a: int, b: int|
                    0 <= a < b < layer_numbers@.len() ==> layer_numbers@[a] < layer_numbers@[b],
                forall|a: int|
                    0 <= a < layer_numbers@.len() && k < groups@.len() ==> (#[trigger] layer_numbers@[a])
                        < groups@[k as int].0,
                forall|a: int|
                    0 <= a < layers@.len() ==> {
                        &&& Self::complete(names, (#[trigger] layer_numbers@[a]) as nat)
                        &&& layers@[a] == roles_of(names, len, layer_numbers@[a] as nat).spec_of()
                    },
                forall|j: int|
                    0 <= j < k && (#[trigger] groups@[j]).1.is_complete() ==> exists|a: int|
                        0 <= a < layer_numbers@.len() && (#[trigger] layer_numbers@[a]) == groups@[j].0,
                dropped_layers == incomplete_among(groups@, k as int),
            decreases groups@.len() - k,
        {
            let group: (usize, PartialLayer) = groups[k];
            let ghost numbers_before = layer_numbers@;
            match group.1.into_spec() {
                Some(spec) => {
                    layers.push(spec);
                    layer_numbers.push(group.0);
                    proof {
                        assert forall|j: int|
                            0 <= j < k + 1 && (#[trigger] groups@[j]).1.is_complete() implies exists|
                            a: int,
                        |
                            0 <= a < layer_numbers@.len() && (#[trigger] layer_numbers@[a])
                                == groups@[j].0 by {
                            if j < k {
                                let a = choose|a: int|
                                    0 <= a < numbers_before.len() && (#[trigger] numbers_before[a])
                                        == groups@[j].0;
                                assert(layer_numbers@[a] == groups@[j].0);
                            } else {
                                assert(layer_numbers@[numbers_before.len() as int] == groups@[j].0);
                            }
                        }
                    }
                },
                None => {
                    dropped_layers = dropped_layers + 1;
                },
            }
            k += 1;
        }
        proof {
            lemma_dropped_count(groups@, names);
            assert forall|n: nat| #[trigger] Self::complete(names, n) implies exists|a: int|
                0 <= a < layer_numbers@.len() && (#[trigger] layer_numbers@[a]) == n by {
                assert(roles_of(names, len, n).ln1_weight is Some);
                assert(mentions(names, len, n));
                let j = choose|j: int| 0 <= j < groups@.len() && (#[trigger] groups@[j]).0 == n;
                assert(groups@[j].1.is_complete());
            }
        }
        LayerPlan {
            embedding,
            positional,
            output,
            final_norm_weight,
            final_norm_bias,
            layers,
            layer_numbers,
            dropped_layers,
        }
    }
}

/// Number of incomplete groups among the first `upto`.
spec fn incomplete_among(groups: Seq<(usize, PartialLayer)>, upto: int) -> nat
    decreases upto,
{
    if upto <= 0 {
        0
    } else if groups[upto - 1].1.is_complete() {
        incomplete_among(groups, upto - 1)
    } else {
        incomplete_among(groups, upto - 1) + 1
    }
}

/// The layer numbers of the incomplete groups among the first `upto`.
spec fn incomplete_keys(groups: Seq<(usize, PartialLayer)>, upto: int) -> Set<nat>
    decreases upto,
{
    if upto <= 0 {
        Set::empty()
    } else if groups[upto - 1].1.is_complete() {
        incomplete_keys(groups, upto - 1)
    } else {
        incomplete_keys(groups, upto - 1).insert(groups[upto - 1].0 as nat)
    }
}

/// The incomplete groups are as many as their layer numbers.
proof fn lemma_incomplete_keys(groups: Seq<(usize, PartialLayer)>, upto: int)
    requires
        0 <= upto <= groups.len(),
        forall|a: int, b: int| 0 <= a < b < groups.len() ==> groups[a].0 < groups[b].0,
    ensures
        incomplete_keys(groups, upto).finite(),
        incomplete_keys(groups, upto).len() == incomplete_among(groups, upto),
        forall|n: nat|
            incomplete_keys(groups, upto).contains(n) <==> exists|k: int|
                0 <= k < upto && (#[trigger] groups[k]).0 == n && !groups[k].1.is_complete(),
    decreases upto,
{
    if upto > 0 {
        lemma_incomplete_keys(groups, upto - 1);
        let prev = incomplete_keys(groups, upto - 1);
        let key = groups[upto - 1].0 as nat;
        if !groups[upto - 1].1.is_complete() {
            assert(!prev.contains(key)) by {
                if prev.contains(key) {
                    let k = choose|k: int|
                        0 <= k < upto - 1 && (#[trigger] groups[k]).0 == key
                            && !groups[k].1.is_complete();
                    assert(groups[k].0 < groups[upto - 1].0);
                }
            }
        }
        assert forall|n: nat|
            incomplete_keys(groups, upto).contains(n) <==> exists|k: int|
                0 <= k < upto && (#[trigger] groups[k]).0 == n && !groups[k].1.is_complete() by {
            if incomplete_keys(groups, upto).contains(n) {
                if prev.contains(n) {
                    let k = choose|k: int|
                        0 <= k < upto - 1 && (#[trigger] groups[k]).0 == n
                            && !groups[k].1.is_complete();
                    assert(0 <= k < upto && groups[k].0 == n && !groups[k].1.is_complete());
                } else {
                    assert(groups[upto - 1].0 == n);
                }
            }
            if exists|k: int|
                0 <= k < upto && (#[trigger] groups[k]).0 == n && !groups[k].1.is_complete() {
                let k = choose|k: int|
                    0 <= k < upto && (#[trigger] groups[k]).0 == n && !groups[k].1.is_complete();
                if k < upto - 1 {
                    assert(prev.contains(n));
                }
            }
        }
    }
}

/// The incomplete groups are as many as the layers that are mentioned but
/// incomplete.
proof fn lemma_dropped_count(groups: Seq<(usize, PartialLayer)>, names: Seq<Seq<char>>)
    requires
        groups_ok(groups, names, names.len() as int),
    ensures
        incomplete_among(groups, groups.len() as int) == Set::new(
            |n: nat| mentions(names, names.len() as int, n) && !LayerPlan::complete(names, n),
        ).len(),
{
    let len = names.len() as int;
    lemma_incomplete_keys(groups, groups.len() as int);
    let keys = incomplete_keys(groups, groups.len() as int);
    let dropped = Set::new(|n: nat| mentions(names, len, n) && !LayerPlan::complete(names, n));
    assert forall|n: nat| keys.contains(n) <==> dropped.contains(n) by {
        if keys.contains(n) {
            let k = choose|k: int|
                0 <= k < groups.len() && (#[trigger] groups[k]).0 == n && !groups[k].1.is_complete();
            assert(groups[k].1 == roles_of(names, len, n));
        }
        if dropped.contains(n) {
            assert(has_key(groups, n));
            let k = choose|k: int| 0 <= k < groups.len() && (#[trigger] groups[k]).0 == n;
            assert(groups[k].1 == roles_of(names, len, n));
        }
    }
    assert(keys =~= dropped);
}

} // verus!
