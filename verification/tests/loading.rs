//! Configurations and checkpoints from text and bytes.

use gemma_metal::config::LayerType;
use gemma_metal::error::Error;
use gemma_metal::load;
use gemma_metal::load::ConfigKind;

const FULL: &str = r#"{
  "hidden_size": 256, "num_hidden_layers": 2, "num_attention_heads": 4,
  "num_key_value_heads": 1, "head_dim": 128, "intermediate_size": 512,
  "vocab_size": 512, "rms_norm_eps": 1e-5, "rope_theta": 10000.0,
  "max_position_embeddings": 2048, "block_size": 4, "sliding_window": 32,
  "final_logit_softcapping": 30.0,
  "layer_types": ["sliding_attention", "unknown", 7, "full_attention"],
  "dflash_config": {"target_layer_ids": [0, "x", 1, 2], "mask_token_id": 9}
}"#;

#[test]
fn a_full_configuration_is_read() {
    let c = load::load_config(FULL).unwrap().unwrap();
    assert_eq!(c.hidden_size, 256);
    assert_eq!(c.num_hidden_layers, 2);
    assert_eq!(c.num_attention_heads, 4);
    assert_eq!(c.num_key_value_heads, 1);
    assert_eq!(c.head_dim, 128);
    assert_eq!(c.intermediate_size, 512);
    assert_eq!(c.vocab_size, 512);
    assert_eq!(c.rms_norm_eps_bits, 1e-5f32.to_bits());
    assert_eq!(c.rope_theta_bits, 10000.0f32.to_bits());
    assert_eq!(c.max_position_embeddings, 2048);
    assert_eq!(c.block_size, 4);
    assert_eq!(c.sliding_window, Some(32));
    assert_eq!(c.final_logit_softcapping_bits, Some(30.0f32.to_bits()));
    assert_eq!(c.layer_types, vec![LayerType::SlidingAttention, LayerType::FullAttention]);
    assert_eq!(c.target_layer_ids, vec![0, 1, 2]);
    assert_eq!(c.mask_token_id, 9);
    assert_eq!(c.embed_scale_bits, 1.0f32.to_bits());
}

#[test]
fn an_empty_configuration_is_the_31b_one() {
    let c = load::load_config("{}").unwrap().unwrap();
    assert_eq!(c.hidden_size, 5376);
    assert_eq!(c.num_hidden_layers, 5);
    assert_eq!(c.num_attention_heads, 64);
    assert_eq!(c.num_key_value_heads, 8);
    assert_eq!(c.block_size, 16);
    assert_eq!(c.target_layer_ids, vec![1, 12, 23, 35, 46, 57]);
    assert_eq!(c.mask_token_id, 4);
    assert_eq!(c.layer_types.len(), 5);
    assert_eq!(c.rms_norm_eps_bits, (1e-6f64 as f32).to_bits());
    assert_eq!(c.rope_theta_bits, 1e6f32.to_bits());
    assert_eq!(c.sliding_window, None);
}

#[test]
fn bad_configurations_are_refused() {
    let e = load::load_config("{").unwrap().unwrap_err();
    let want = serde_json::from_str::<serde_json::Value>("{").unwrap_err();
    assert_eq!(e.message(), format!("config: dflash config: {want}"));
    let e = load::load_config(r#"{"num_hidden_layers": 4}"#).unwrap().unwrap_err();
    assert_eq!(e.message(), "config: dflash: layer_types len must match num_hidden_layers");
    let e = load::load_config(r#"{"dflash_config": {"target_layer_ids": []}}"#).unwrap().unwrap_err();
    assert_eq!(e.message(), "config: dflash: empty target_layer_ids");
    let e = load::load_config(r#"{"head_dim": 0}"#).unwrap().unwrap_err();
    assert_eq!(e.message(), "config: dflash: invalid head geometry");
    assert!(load::load_config(r#"{"num_key_value_heads": 0}"#).is_none());
}

#[test]
fn configurations_are_told_apart() {
    let k = |s: &str| load::config_kind_of(s);
    assert_eq!(k(r#"{"model_type": "gemma4", "text_config": {}}"#).unwrap(), ConfigKind::Multimodal);
    assert_eq!(k(r#"{"model_type": "gemma4_text"}"#).unwrap(), ConfigKind::Text);
    assert_eq!(k(r#"{"model_type": "gemma4_assistant"}"#).unwrap(), ConfigKind::Assistant);
    assert_eq!(k(r#"{"text_config": {}}"#).unwrap(), ConfigKind::Multimodal);
    assert_eq!(
        k(r#"{"model_type": "gemma4"}"#).unwrap_err().message(),
        "config: gemma4 missing text_config"
    );
    assert_eq!(
        k(r#"{"model_type": "llama"}"#).unwrap_err().message(),
        "config: unsupported model_type 'llama' (expected gemma4 / gemma4_text / gemma4_assistant)"
    );
    assert_eq!(
        k("[1]").unwrap_err().message(),
        "config: unsupported model_type '' (expected gemma4 / gemma4_text / gemma4_assistant)"
    );
    match k("nope").unwrap_err() {
        Error::Json(m) => {
            assert_eq!(m, serde_json::from_str::<serde_json::Value>("nope").unwrap_err().to_string())
        }
        _ => unreachable!(),
    }
}

fn safetensors_file(tensors: &[(String, &str, Vec<u8>)]) -> Vec<u8> {
    let mut header = String::from("{");
    let mut at = 0;
    for (i, (name, dtype, data)) in tensors.iter().enumerate() {
        let width = if *dtype == "BF16" { 2 } else { 4 };
        if i > 0 {
            header.push(',');
        }
        header.push_str(&format!(
            "\"{name}\":{{\"dtype\":\"{dtype}\",\"shape\":[{}],\"data_offsets\":[{at},{}]}}",
            data.len() / width,
            at + data.len()
        ));
        at += data.len();
    }
    header.push('}');
    let mut out = (header.len() as u64).to_le_bytes().to_vec();
    out.extend_from_slice(header.as_bytes());
    for (_, _, data) in tensors {
        out.extend_from_slice(data);
    }
    out
}

#[test]
fn draft_tensors_load_in_order() {
    let names = load::tensor_names(1);
    assert_eq!(names.len(), 14);
    assert_eq!(names[0], "fc.weight");
    assert_eq!(names[3], "layers.0.input_layernorm.weight");
    assert_eq!(names[13], "layers.0.mlp.down_proj.weight");
    let tensors: Vec<(String, &str, Vec<u8>)> = names
        .iter()
        .enumerate()
        .map(|(i, n)| (n.clone(), "BF16", vec![i as u8, 0x3f, 0x80, 0x40]))
        .collect();
    let bytes = safetensors_file(&tensors);
    let v = load::load_weights("m.safetensors", &bytes, 1).unwrap();
    assert_eq!(v.len(), 14);
    for (i, t) in v.iter().enumerate() {
        assert_eq!(t, &vec![(0x3f00 + i as u32) << 16, 0x4080_0000]);
    }
    assert_eq!(f32::from_bits(v[0][1]), 4.0);
}

#[test]
fn missing_and_misshapen_tensors_are_refused() {
    let bytes = safetensors_file(&[("fc.weight".into(), "F32", vec![0; 8])]);
    let e = load::load_weights("m", &bytes, 0).unwrap_err();
    assert_eq!(e.message(), "weights: fc.weight: expected BF16");
    let bytes = safetensors_file(&[("fc.weight".into(), "BF16", vec![0; 4])]);
    let e = load::load_weights("m", &bytes, 0).unwrap_err();
    assert_eq!(e.message(), "weights: missing hidden_norm.weight");
    let e = load::load_weights("m", &[1, 2, 3], 0).unwrap_err();
    assert!(e.message().starts_with("safetensors: m: "));
    assert_eq!(load::load_bf16(&bytes, "fc.weight").unwrap(), vec![0, 0]);
}

#[test]
fn headers_are_framed() {
    assert_eq!(load::header_len("p", &200u64.to_le_bytes()).unwrap(), 200);
    assert_eq!(load::header_len("p", &(64u64 * 1024 * 1024).to_le_bytes()).unwrap(), 67_108_864);
    assert_eq!(
        load::header_len("p", &0u64.to_le_bytes()).unwrap_err().message(),
        "safetensors: p: implausible header_len=0"
    );
    assert_eq!(
        load::header_len("p", &67_108_865u64.to_le_bytes()).unwrap_err().message(),
        "safetensors: p: implausible header_len=67108865"
    );
}

#[test]
fn peek_draft_conditioner_shapes_from_cache() {
    let text = r#"{"hidden_size": 5376, "num_hidden_layers": 5}"#;
    let header = br#"{"fc.weight":{"shape":[5376,32256]},"hidden_norm.weight":{"shape":[5376]}}"#;
    let (cfg, s) = load::peek_conditioner_shapes(text, "m", header).unwrap();
    assert_eq!(cfg.target_layer_ids, vec![1, 12, 23, 35, 46, 57]);
    assert_eq!(cfg.hidden_size, 5376);
    assert_eq!(s.fc, (5376, 6 * 5376));
    assert_eq!(s.norm, 5376);
    assert_eq!(cfg.num_hidden_layers, 5);
}

#[test]
fn bad_headers_are_refused() {
    let peek = |h: &[u8]| load::peek_conditioner_shapes("{}", "m", h).unwrap_err().message();
    assert!(peek(b"{").starts_with("safetensors: m: header json: EOF while parsing"));
    assert_eq!(peek(b"[]"), "safetensors: m: header not object");
    assert_eq!(peek(b"{}"), "weights: missing fc.weight in header");
    assert_eq!(peek(br#"{"fc.weight":1}"#), "weights: missing hidden_norm.weight in header");
    let s = load::conditioner_shapes("m", br#"{"fc.weight":1,"hidden_norm.weight":{"shape":{"0":4}}}"#).unwrap();
    assert_eq!((s.fc, s.norm), ((0, 0), 0));
    let e = load::peek_conditioner_shapes("x", "m", b"{}").unwrap_err();
    assert!(e.message().starts_with("config: dflash config: "));
    let e = load::peek_conditioner_shapes(r#"{"num_hidden_layers":3}"#, "m", b"{}").unwrap_err();
    assert_eq!(e.message(), "config: dflash: layer_types len must match num_hidden_layers");
}

#[test]
fn headers_with_unreachable_offsets_are_refused() {
    let file = |header: String| {
        let mut out = (header.len() as u64).to_le_bytes().to_vec();
        out.extend_from_slice(header.as_bytes());
        out
    };
    let big = usize::MAX;
    let bytes = file(format!("{{\"fc.weight\":{{\"dtype\":\"U8\",\"shape\":[{big}],\"data_offsets\":[0,{big}]}}}}"));
    assert!(!load::check_offsets(&bytes));
    assert_eq!(load::load_bf16(&bytes, "fc.weight").unwrap_err().message(), "safetensors: offset out of range");
    assert_eq!(
        load::load_weights("m", &bytes, 0).unwrap_err().message(),
        "safetensors: m: offset out of range"
    );
    let near = usize::MAX - 7;
    let bytes = file(format!(
        "{{\"a\":{{\"dtype\":\"U8\",\"shape\":[{near}],\"data_offsets\":[0,{near}]}}}}"
    ));
    assert!(!load::check_offsets(&bytes));
    let far = usize::MAX / 2;
    let bytes = file(format!(
        "{{\"a\":{{\"dtype\":\"U8\",\"shape\":[{far}],\"data_offsets\":[0,{far}]}}}}"
    ));
    assert!(load::check_offsets(&bytes));
    assert!(load::load_weights("m", &bytes, 0).is_err());
    // A shape may hold any number, as long as the range is right.
    let none = file(format!(
        "{{\"a\":{{\"dtype\":\"BF16\",\"shape\":[0,{big}],\"data_offsets\":[0,0]}}}}"
    ));
    assert!(load::check_offsets(&none));
    assert_eq!(load::load_bf16(&none, "a").unwrap(), Vec::<u32>::new());
    let listed = file(format!("{{\"a\":[\"U8\",[{big}],[0,{big}]]}}"));
    assert!(!load::check_offsets(&listed));
    let spelled = file(format!(
        "{{\"a\":{{\"dtype\":\"U8\",\"shape\":[{big}],\"data\\u005foffsets\":[0,{big}]}}}}"
    ));
    assert!(!load::check_offsets(&spelled));
    let no_tensor = file("{\"x\":184467440737095516159}".to_string());
    assert!(load::check_offsets(&no_tensor));
    assert!(load::load_weights("m", &no_tensor, 0).is_err());
    let noted = file(format!("{{\"__metadata__\":{{\"total\\\"_size\":\"{big}0\"}}}}"));
    assert!(load::check_offsets(&noted));
    assert_eq!(load::load_bf16(&noted, "a").unwrap_err().message(), "weights: missing a");
    assert!(load::check_offsets(&[1, 2, 3]) && load::check_offsets(&[9; 12]));
    assert!(load::load_weights("m", &[9; 12], 0).is_err());
}
