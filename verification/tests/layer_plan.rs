use n64_gpt::inference_engine::layer_name::{parse_layer_entry, LayerField};
use n64_gpt::inference_engine::plan::{LayerPlan, LayerSpec, PartialLayer};
use n64_gpt::manifest::{Layer, Manifest};
use n64_gpt::model::dims::ModelDims;
use n64_gpt::model::names;

const FIELDS: [(&str, LayerField); 12] = [
    ("ln1.weight", LayerField::Ln1Weight),
    ("ln1.bias", LayerField::Ln1Bias),
    ("attn.qkv.weight", LayerField::AttnWeight),
    ("attn.qkv.bias", LayerField::AttnBias),
    ("attn.proj.weight", LayerField::AttnProjWeight),
    ("attn.proj.bias", LayerField::AttnProjBias),
    ("ln2.weight", LayerField::Ln2Weight),
    ("ln2.bias", LayerField::Ln2Bias),
    ("ffn.in.weight", LayerField::FfnWeight),
    ("ffn.in.bias", LayerField::FfnBias),
    ("ffn.out.weight", LayerField::FfnProjWeight),
    ("ffn.out.bias", LayerField::FfnProjBias),
];

fn manifest_of(names: &[String]) -> Manifest {
    let mut manifest = Manifest { layers: Vec::new(), align: 64, dims: ModelDims::fallback() };
    for (i, name) in names.iter().enumerate() {
        manifest.layers.push(Layer { name: name.clone(), offset: (i * 16) as u32, size: 16 });
    }
    manifest
}

fn layer_names(n: &str) -> Vec<String> {
    FIELDS.iter().map(|(f, _)| format!("layer{}.{}", n, f)).collect()
}

#[test]
fn parse_layer_fields() {
    assert!(matches!(parse_layer_entry("layer00.ln1.weight"), Some((0, LayerField::Ln1Weight))));
    assert!(parse_layer_entry("layer03.ffn.out.bias").is_some());
    assert!(parse_layer_entry("tok_embeddings").is_none());
}

#[test]
fn layer_plan_collects_layers() {
    let mut manifest = Manifest { layers: Vec::new(), align: 64, dims: ModelDims::fallback() };
    let names = [
        names::L_TOK_EMB,
        names::L_POS_EMB,
        "layer0.ln1.weight",
        "layer0.ln1.bias",
        "layer0.attn.qkv.weight",
        "layer0.attn.qkv.bias",
        "layer0.attn.proj.weight",
        "layer0.attn.proj.bias",
        "layer0.ln2.weight",
        "layer0.ln2.bias",
        "layer0.ffn.in.weight",
        "layer0.ffn.in.bias",
        "layer0.ffn.out.weight",
        "layer0.ffn.out.bias",
        names::L_FINAL_NORM_WEIGHT,
        names::L_FINAL_NORM_BIAS,
        names::L_LM_HEAD,
    ];
    for (i, name) in names.iter().enumerate() {
        manifest.layers.push(Layer { name: name.to_string(), offset: (i * 16) as u32, size: 16 });
    }

    let plan = LayerPlan::from_manifest(&manifest);
    assert_eq!(plan.layers.len(), 1);
    assert!(plan.embedding.is_some());
    assert!(plan.positional.is_some());
    assert!(plan.output.is_some());
    assert!(plan.final_norm_weight.is_some());
    assert!(plan.final_norm_bias.is_some());
}

#[test]
fn every_field_name_parses_to_its_role() {
    for (name, field) in FIELDS.iter() {
        assert_eq!(parse_layer_entry(&format!("layer7.{}", name)), Some((7, *field)));
        assert_eq!(parse_layer_entry(&format!("layer0012.{}", name)), Some((12, *field)));
    }
}

#[test]
fn names_that_are_no_layer_names() {
    for name in [
        "",
        "layer",
        "layer1",
        "layer1.",
        "layer1.ln1",
        "layer1.ln1.weight ",
        "layer1.LN1.weight",
        "Layer1.ln1.weight",
        "layers1.ln1.weight",
        "layer1x.ln1.weight",
        "layer-1.ln1.weight",
        "layer1..ln1.weight",
        "layer1.ln1.weight.",
        "xlayer1.ln1.weight",
        "layer１.ln1.weight",
        "layér1.ln1.weight",
        "ln_f.weight",
        "lm_head",
        "model_meta",
    ] {
        assert_eq!(parse_layer_entry(name), None, "{:?}", name);
    }
}

#[test]
fn layer_number_edge_cases() {
    // a name without a digit names no layer
    assert_eq!(parse_layer_entry("layer.ln1.bias"), None);
    assert_eq!(parse_layer_entry("layer0.ln1.bias"), Some((0, LayerField::Ln1Bias)));
    let max = format!("layer{}.ln1.bias", usize::MAX);
    assert_eq!(parse_layer_entry(&max), Some((usize::MAX, LayerField::Ln1Bias)));
    let padded = format!("layer000000000000000000000000{}.ln1.bias", usize::MAX);
    assert_eq!(parse_layer_entry(&padded), Some((usize::MAX, LayerField::Ln1Bias)));
    // one more than fits in a machine word
    let over = format!("layer{}.ln1.bias", usize::MAX as u128 + 1);
    assert_eq!(parse_layer_entry(&over), None);
    assert_eq!(parse_layer_entry("layer99999999999999999999999999.ln1.bias"), None);
}

#[test]
fn partial_layer_is_complete_with_all_twelve_roles() {
    let mut p = PartialLayer::new();
    assert_eq!(p, PartialLayer::default());
    for (i, (_, field)) in FIELDS.iter().enumerate() {
        assert_eq!(p.into_spec(), None);
        p.set(*field, 100 + i);
    }
    assert_eq!(
        p.into_spec(),
        Some(LayerSpec {
            ln1_weight: 100,
            ln1_bias: 101,
            attn_weight: 102,
            attn_bias: 103,
            attn_proj_weight: 104,
            attn_proj_bias: 105,
            ln2_weight: 106,
            ln2_bias: 107,
            ffn_weight: 108,
            ffn_bias: 109,
            ffn_proj_weight: 110,
            ffn_proj_bias: 111,
        })
    );
    p.set(LayerField::Ln2Bias, 7);
    assert_eq!(p.into_spec().unwrap().ln2_bias, 7);
}

#[test]
fn layers_come_out_by_ascending_number() {
    let mut names = Vec::new();
    names.extend(layer_names("10"));
    names.push("lm_head".to_string());
    names.extend(layer_names("2"));
    names.extend(layer_names("0"));
    let plan = LayerPlan::from_manifest(&manifest_of(&names));
    assert_eq!(plan.layer_numbers, vec![0, 2, 10]);
    assert_eq!(plan.layers.len(), 3);
    assert_eq!(plan.dropped_layers, 0);
    assert_eq!(plan.layers[0].ln1_weight, 25);
    assert_eq!(plan.layers[1].ln1_weight, 13);
    assert_eq!(plan.layers[2].ln1_weight, 0);
    assert_eq!(plan.layers[2].ffn_proj_bias, 11);
    assert_eq!(plan.output, Some(12));
    assert_eq!(plan.embedding, None);
}

#[test]
fn incomplete_layers_are_dropped_and_counted() {
    let mut names = layer_names("0");
    let mut partial = layer_names("1");
    partial.remove(5);
    names.extend(partial);
    names.push("layer5.ffn.in.bias".to_string());
    names.extend(layer_names("3"));
    let plan = LayerPlan::from_manifest(&manifest_of(&names));
    assert_eq!(plan.layer_numbers, vec![0, 3]);
    assert_eq!(plan.layers.len(), 2);
    assert_eq!(plan.dropped_layers, 2);
}

#[test]
fn a_manifest_without_layers_gives_an_empty_plan() {
    let plan = LayerPlan::from_manifest(&manifest_of(&[]));
    assert!(plan.layers.is_empty());
    assert_eq!(plan.dropped_layers, 0);
    assert_eq!(
        (plan.embedding, plan.positional, plan.output, plan.final_norm_weight, plan.final_norm_bias),
        (None, None, None, None, None)
    );
    let plan = LayerPlan::from_manifest(&manifest_of(&["x".to_string(), "layer0.ln1.bias".to_string()]));
    assert!(plan.layers.is_empty());
    assert_eq!(plan.dropped_layers, 1);
}

#[test]
fn the_last_entry_of_a_name_wins() {
    let mut names = vec!["tok_embeddings".to_string(), "ln_f.bias".to_string()];
    names.extend(layer_names("4"));
    names.push("layer04.attn.proj.bias".to_string());
    names.push("tok_embeddings".to_string());
    let plan = LayerPlan::from_manifest(&manifest_of(&names));
    assert_eq!(plan.embedding, Some(15));
    assert_eq!(plan.final_norm_bias, Some(1));
    assert_eq!(plan.layer_numbers, vec![4]);
    assert_eq!(plan.layers[0].attn_proj_bias, 14);
    assert_eq!(plan.layers[0].attn_proj_weight, 6);
}
