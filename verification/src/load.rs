//! Reading configurations and draft checkpoints. Files are read by the caller;
//! here their text and bytes become values.

use crate::config::LayerType;
use crate::dflash;
use crate::dflash::DFlashConfig;
use crate::error;
use crate::error::{Error, ErrorKind, ErrorV, Result};
use crate::floats;
use crate::tensor;
use crate::text;
use vstd::prelude::*;
use vstd::string::*;

verus! {

/// The view of a text that may be absent.
pub open spec fn text_view(o: Option<String>) -> Option<Seq<char>> {
    match o {
        Some(s) => Some(s@),
        None => None,
    }
}

/// What `serde_json::from_str` reports of a text that is not JSON; nothing of one
/// that is.
pub uninterp spec fn json_fault(text: Seq<char>) -> Option<Seq<char>>;

/// Parses a text with `serde_json::from_str`. The result is the message of its
/// error, where it gives one: a function of the text alone.
#[verifier::external_body]
pub(crate) fn parse_error(text: &str) -> (r: Option<String>)
    ensures
        text_view(r) == json_fault(text@),
{
    match serde_json::from_str::<serde_json::Value>(text) {
        Ok(_) => None,
        Err(e) => Some(e.to_string()),
    }
}

/// Whether `serde_json::Value::pointer` finds something in a text.
pub uninterp spec fn json_found(text: Seq<char>, pointer: Seq<char>) -> bool;

/// Looks a pointer up with `serde_json::Value::pointer` in the value of a text and
/// says whether it leads anywhere; a text that is no JSON has nothing in it.
#[verifier::external_body]
fn json_has(text: &str, pointer: &str) -> (r: bool)
    ensures
        r == json_found(text@, pointer@),
{
    match serde_json::from_str::<serde_json::Value>(text) {
        Ok(v) => v.pointer(pointer).is_some(),
        Err(_) => false,
    }
}

/// What `serde_json::Value::as_u64` gives for the value at a pointer in a text.
pub uninterp spec fn json_u64_at(text: Seq<char>, pointer: Seq<char>) -> Option<u64>;

/// The value at a pointer as `serde_json::Value::as_u64` gives it: nothing where
/// the pointer leads nowhere or to something else than such a number.
#[verifier::external_body]
fn json_u64(text: &str, pointer: &str) -> (r: Option<u64>)
    ensures
        r == json_u64_at(text@, pointer@),
{
    let v: serde_json::Value = serde_json::from_str(text).ok()?;
    v.pointer(pointer)?.as_u64()
}

/// The bits of what `serde_json::Value::as_f64` gives for the value at a pointer in
/// a text.
pub uninterp spec fn json_f64_at(text: Seq<char>, pointer: Seq<char>) -> Option<u64>;

/// The value at a pointer as `serde_json::Value::as_f64` gives it, as the bits of
/// the double: nothing where the pointer leads nowhere or to no number.
#[verifier::external_body]
fn json_f64_bits(text: &str, pointer: &str) -> (r: Option<u64>)
    ensures
        r == json_f64_at(text@, pointer@),
{
    let v: serde_json::Value = serde_json::from_str(text).ok()?;
    v.pointer(pointer)?.as_f64().map(|x| x.to_bits())
}

/// What `serde_json::Value::as_str` gives for the value at a pointer in a text.
pub uninterp spec fn json_str_at(text: Seq<char>, pointer: Seq<char>) -> Option<Seq<char>>;

/// The value at a pointer as `serde_json::Value::as_str` gives it: nothing where
/// the pointer leads nowhere or to no string.
#[verifier::external_body]
pub(crate) fn json_str(text: &str, pointer: &str) -> (r: Option<String>)
    ensures
        text_view(r) == json_str_at(text@, pointer@),
{
    let v: serde_json::Value = serde_json::from_str(text).ok()?;
    v.pointer(pointer)?.as_str().map(|s| s.to_string())
}

/// The length of what `serde_json::Value::as_array` gives for the value at a pointer
/// in a text.
pub uninterp spec fn json_len_at(text: Seq<char>, pointer: Seq<char>) -> Option<usize>;

/// The length of the array at a pointer, which `serde_json::Value::as_array` gives:
/// nothing where the pointer leads nowhere or to no array.
#[verifier::external_body]
pub(crate) fn json_len(text: &str, pointer: &str) -> (r: Option<usize>)
    ensures
        r == json_len_at(text@, pointer@),
{
    let v: serde_json::Value = serde_json::from_str(text).ok()?;
    v.pointer(pointer)?.as_array().map(|a| a.len())
}

/// What `serde_json::from_slice` reports of bytes that are not JSON; nothing of
/// bytes that are.
pub uninterp spec fn json_bytes_fault(bytes: Seq<u8>) -> Option<Seq<char>>;

/// Parses bytes with `serde_json::from_slice`. The result is the message of its
/// error, where it gives one: a function of the bytes alone.
#[verifier::external_body]
fn parse_bytes_error(bytes: &[u8]) -> (r: Option<String>)
    ensures
        text_view(r) == json_bytes_fault(bytes@),
{
    match serde_json::from_slice::<serde_json::Value>(bytes) {
        Ok(_) => None,
        Err(e) => Some(e.to_string()),
    }
}

/// Whether `serde_json::Value::is_object` holds of the value of bytes.
pub uninterp spec fn json_object(bytes: Seq<u8>) -> bool;

/// Whether bytes hold an object, as `serde_json::Value::is_object` says.
#[verifier::external_body]
fn json_is_object(bytes: &[u8]) -> (r: bool)
    ensures
        r == json_object(bytes@),
{
    match serde_json::from_slice::<serde_json::Value>(bytes) {
        Ok(v) => v.is_object(),
        Err(_) => false,
    }
}

/// Whether `serde_json::Value::get` finds a key in the value of bytes.
pub uninterp spec fn json_member(bytes: Seq<u8>, key: Seq<char>) -> bool;

/// Whether bytes hold an object with a key, as `serde_json::Value::get` finds it.
#[verifier::external_body]
fn json_has_member(bytes: &[u8], key: &str) -> (r: bool)
    ensures
        r == json_member(bytes@, key@),
{
    match serde_json::from_slice::<serde_json::Value>(bytes) {
        Ok(v) => v.get(key).is_some(),
        Err(_) => false,
    }
}

/// What `serde_json::Value::as_u64` gives for an element of an array that stands
/// under an inner key of the value of a key, in the value of bytes.
pub uninterp spec fn json_element_u64(
    bytes: Seq<u8>,
    key: Seq<char>,
    inner: Seq<char>,
    i: usize,
) -> Option<u64>;

/// Indexes the value of bytes with `serde_json`'s `Index` by a key, by an inner key
/// and by a number, and gives the element as `serde_json::Value::as_u64` does. What
/// is not there counts as null, which is no number.
#[verifier::external_body]
fn json_element(bytes: &[u8], key: &str, inner: &str, i: usize) -> (r: Option<u64>)
    ensures
        r == json_element_u64(bytes@, key@, inner@, i),
{
    let v: serde_json::Value = serde_json::from_slice(bytes).ok()?;
    v[key][inner][i].as_u64()
}

/// The ends of the byte ranges of the tensors that `safetensors::tensor::Metadata` names,
/// as it is read from the bytes of a header; nothing where it cannot be.
pub uninterp spec fn header_ends(header: Seq<u8>) -> Option<Set<usize>>;

/// Ends of byte ranges, in no order.
pub open spec fn ends_view(o: Option<Vec<usize>>) -> Option<Set<usize>> {
    match o {
        Some(v) => Some(v@.to_set()),
        None => None,
    }
}

/// Reads a header as `safetensors::tensor::Metadata` with `serde_json::from_str`, and gives
/// the end of the byte range of each of its tensors. Nothing where the bytes are no text or
/// hold no such header. Which ends there are is a function of the bytes; of their order
/// nothing is said.
#[verifier::external_body]
fn read_ends(header: &[u8]) -> (r: Option<Vec<usize>>)
    ensures
        ends_view(r) == header_ends(header@),
{
    let text = std::str::from_utf8(header).ok()?;
    let m: safetensors::tensor::Metadata = serde_json::from_str(text).ok()?;
    Some(m.tensors().values().map(|t| t.data_offsets.1).collect())
}

/// The longest header that is read.
pub const MAX_HEADER: u64 = 100_000_000;

/// No end is greater than `limit`.
pub open spec fn ends_within(ends: Option<Set<usize>>, limit: int) -> bool {
    ends is Some ==> forall|e: usize| #[trigger] ends->0.contains(e) ==> e <= limit
}

/// Every end that the header of a checkpoint names can be added to the length of what
/// stands before the data. Nothing is asked where the header is too long to be read or
/// does not lie within the bytes.
pub open spec fn offsets_fit(bytes: Seq<u8>) -> bool {
    let n = little_endian(bytes);
    bytes.len() >= 8 && n <= MAX_HEADER && 8 + n <= bytes.len() ==> ends_within(
        header_ends(bytes.subrange(8, 8 + n)),
        usize::MAX - 8 - n,
    )
}

proof fn lemma_beyond(ends: Set<usize>, e: usize, limit: int)
    requires
        ends.contains(e),
        e > limit,
    ensures
        !ends_within(Some(ends), limit),
{
    let o = Some(ends);
    if ends_within(o, limit) {
        assert(o->0 == ends);
        assert(o->0.contains(e));
        assert(e <= limit);
    }
}

fn all_within(ends: &Vec<usize>, limit: usize) -> (r: bool)
    ensures
        r == ends_within(Some(ends@.to_set()), limit as int),
{
    let mut i: usize = 0;
    while i < ends.len()
        invariant
            i <= ends@.len(),
            forall|k: int| 0 <= k < i ==> ends@[k] <= limit,
        decreases ends@.len() - i,
    {
        if ends[i] > limit {
            let ghost e = ends@[i as int];
            assert(ends@.contains(e));
            assert(ends@.to_set().contains(e) && e > limit);
            proof {
                lemma_beyond(ends@.to_set(), e, limit as int);
            }
            return false;
        }
        i = i + 1;
    }
    assert forall|e: usize| #[trigger] ends@.to_set().contains(e) implies e <= limit by {
        assert(ends@.contains(e));
    }
    true
}

/// Whether every end that the header of a checkpoint names is small enough.
pub fn check_offsets(bytes: &[u8]) -> (r: bool)
    ensures
        r == offsets_fit(bytes@),
{
    let len: usize = bytes.len();
    if len < 8 {
        return true;
    }
    let n: u64 = bytes[0] as u64 + 0x100 * (bytes[1] as u64) + 0x1_0000 * (bytes[2] as u64)
        + 0x100_0000 * (bytes[3] as u64) + 0x1_0000_0000 * (bytes[4] as u64) + 0x100_0000_0000 * (
    bytes[5] as u64) + 0x1_0000_0000_0000 * (bytes[6] as u64) + 0x100_0000_0000_0000 * (
    bytes[7] as u64);
    assert(n == little_endian(bytes@));
    if n > MAX_HEADER || n > (len - 8) as u64 {
        return true;
    }
    let limit: usize = usize::MAX - 8 - n as usize;
    let header = vstd::slice::slice_subrange(bytes, 8, 8 + n as usize);
    assert(header@ == bytes@.subrange(8, 8 + little_endian(bytes@)));
    match read_ends(header) {
        None => true,
        Some(ends) => all_within(&ends, limit),
    }
}

/// Whether `safetensors::SafeTensors::deserialize` accepts bytes.
pub uninterp spec fn safetensors_accepts(bytes: Seq<u8>) -> bool;

/// Reads bytes with `safetensors::SafeTensors::deserialize`. The result is the
/// message of its error, where it gives one. Whether it gives one is a function of
/// the bytes; of the message nothing is said, since it may name either of two
/// tensors that claim the same bytes. It adds the last end that the header names to the
/// header's length without a check, so that sum must not overflow.
#[verifier::external_body]
fn safetensors_error(bytes: &[u8]) -> (r: Option<String>)
    requires
        offsets_fit(bytes@),
    ensures
        (r is None) == safetensors_accepts(bytes@),
{
    match safetensors::SafeTensors::deserialize(bytes) {
        Ok(_) => None,
        Err(e) => Some(e.to_string()),
    }
}

/// What `safetensors::SafeTensors::tensor` gives for a name in bytes: whether its
/// element type is the half-width float, and its data.
pub uninterp spec fn safetensors_tensor(bytes: Seq<u8>, name: Seq<char>) -> Option<(bool, Seq<u8>)>;

/// The view of a tensor's type and data.
pub open spec fn tensor_view(o: Option<(bool, Vec<u8>)>) -> Option<(bool, Seq<u8>)> {
    match o {
        Some(t) => Some((t.0, t.1@)),
        None => None,
    }
}

/// Finds a tensor with `safetensors::SafeTensors::tensor`: whether its element type
/// is the half-width float, and a copy of its data. Nothing where the bytes are
/// refused or hold no such name. The bytes are read as `safetensors_error` reads them.
#[verifier::external_body]
fn find_tensor(bytes: &[u8], name: &str) -> (r: Option<(bool, Vec<u8>)>)
    requires
        offsets_fit(bytes@),
    ensures
        tensor_view(r) == safetensors_tensor(bytes@, name@),
{
    let st = safetensors::SafeTensors::deserialize(bytes).ok()?;
    let t = st.tensor(name).ok()?;
    Some((matches!(t.dtype(), safetensors::Dtype::BF16), t.data().to_vec()))
}

/// Which configuration a document holds.
#[derive(Clone, Copy, Debug, PartialEq, Eq, Structural)]
pub enum ConfigKind {
    /// A text backbone within a larger model.
    Multimodal,
    /// A text backbone alone.
    Text,
    /// A drafting assistant.
    Assistant,
}

/// The kind of a configuration that names a model type, and may nest a backbone.
pub open spec fn kind_of(
    model_type: Option<Seq<char>>,
    nested: bool,
) -> std::result::Result<ConfigKind, ErrorV> {
    let name = match model_type {
        Some(m) => m,
        None => ""@,
    };
    if name == "gemma4"@ {
        if nested {
            Ok(ConfigKind::Multimodal)
        } else {
            Err(error::config_error("gemma4 missing text_config"@))
        }
    } else if name == "gemma4_text"@ {
        Ok(ConfigKind::Text)
    } else if name == "gemma4_assistant"@ {
        Ok(ConfigKind::Assistant)
    } else if nested {
        Ok(ConfigKind::Multimodal)
    } else {
        Err(
            error::config_error(
                "unsupported model_type '"@ + name
                    + "' (expected gemma4 / gemma4_text / gemma4_assistant)"@,
            ),
        )
    }
}

/// The kind of a configuration.
pub fn config_kind(model_type: Option<String>, nested: bool) -> (r: Result<ConfigKind>)
    ensures
        match kind_of(text_view(model_type), nested) {
            Ok(k) => r == Ok::<ConfigKind, Error>(k),
            Err(e) => error::fails_with(r, e),
        },
{
    let name = match model_type {
        Some(m) => m,
        None => String::from_str(""),
    };
    if text::str_eq(name.as_str(), "gemma4") {
        if nested {
            return Ok(ConfigKind::Multimodal);
        }
        return Err(Error::Config(String::from_str("gemma4 missing text_config")));
    }
    if text::str_eq(name.as_str(), "gemma4_text") {
        return Ok(ConfigKind::Text);
    }
    if text::str_eq(name.as_str(), "gemma4_assistant") {
        return Ok(ConfigKind::Assistant);
    }
    if nested {
        return Ok(ConfigKind::Multimodal);
    }
    Err(
        Error::Config(
            text::text_around(
                "unsupported model_type '",
                name.as_str(),
                "' (expected gemma4 / gemma4_text / gemma4_assistant)",
            ),
        ),
    )
}

/// The kind of the configuration that a text holds.
pub fn config_kind_of(text: &str) -> (r: Result<ConfigKind>)
    ensures
        match json_fault(text@) {
            Some(e) => error::fails_with(r, ErrorV { kind: ErrorKind::Json, text: e }),
            None => match kind_of(
                json_str_at(text@, "/model_type"@),
                json_found(text@, "/text_config"@),
            ) {
                Ok(k) => r == Ok::<ConfigKind, Error>(k),
                Err(e) => error::fails_with(r, e),
            },
        },
{
    match parse_error(text) {
        Some(e) => Err(Error::Json(e)),
        None => config_kind(json_str(text, "/model_type"), json_has(text, "/text_config")),
    }
}

/// What a draft's configuration says, field by field; floats as the bits of doubles.
#[derive(Clone, Debug)]
pub struct DraftFields {
    pub hidden_size: Option<u64>,
    pub num_hidden_layers: Option<u64>,
    pub num_attention_heads: Option<u64>,
    pub num_key_value_heads: Option<u64>,
    pub head_dim: Option<u64>,
    pub intermediate_size: Option<u64>,
    pub vocab_size: Option<u64>,
    pub rms_norm_eps: Option<u64>,
    pub rope_theta: Option<u64>,
    pub max_position_embeddings: Option<u64>,
    pub block_size: Option<u64>,
    pub mask_token_id: Option<u64>,
    pub sliding_window: Option<u64>,
    pub final_logit_softcapping: Option<u64>,
    pub target_layer_ids: Option<Vec<Option<u64>>>,
    pub layer_types: Option<Vec<Option<String>>>,
}

/// The fields as a mathematical value.
#[verifier::ext_equal]
pub struct DraftFieldsV {
    pub hidden_size: Option<u64>,
    pub num_hidden_layers: Option<u64>,
    pub num_attention_heads: Option<u64>,
    pub num_key_value_heads: Option<u64>,
    pub head_dim: Option<u64>,
    pub intermediate_size: Option<u64>,
    pub vocab_size: Option<u64>,
    pub rms_norm_eps: Option<u64>,
    pub rope_theta: Option<u64>,
    pub max_position_embeddings: Option<u64>,
    pub block_size: Option<u64>,
    pub mask_token_id: Option<u64>,
    pub sliding_window: Option<u64>,
    pub final_logit_softcapping: Option<u64>,
    pub target_layer_ids: Option<Seq<Option<u64>>>,
    pub layer_types: Option<Seq<Option<Seq<char>>>>,
}

/// The views of texts that may be absent.
pub open spec fn text_views(v: Seq<Option<String>>) -> Seq<Option<Seq<char>>> {
    v.map_values(|o: Option<String>| text_view(o))
}

impl View for DraftFields {
    type V = DraftFieldsV;

    open spec fn view(&self) -> DraftFieldsV {
        DraftFieldsV {
            hidden_size: self.hidden_size,
            num_hidden_layers: self.num_hidden_layers,
            num_attention_heads: self.num_attention_heads,
            num_key_value_heads: self.num_key_value_heads,
            head_dim: self.head_dim,
            intermediate_size: self.intermediate_size,
            vocab_size: self.vocab_size,
            rms_norm_eps: self.rms_norm_eps,
            rope_theta: self.rope_theta,
            max_position_embeddings: self.max_position_embeddings,
            block_size: self.block_size,
            mask_token_id: self.mask_token_id,
            sliding_window: self.sliding_window,
            final_logit_softcapping: self.final_logit_softcapping,
            target_layer_ids: match self.target_layer_ids {
                Some(v) => Some(v@),
                None => None,
            },
            layer_types: match self.layer_types {
                Some(v) => Some(text_views(v@)),
                None => None,
            },
        }
    }
}

/// The numbers of an array in a text; nothing in place of other elements.
pub open spec fn numbers_at(text: Seq<char>, pointer: Seq<char>) -> Option<Seq<Option<u64>>> {
    match json_len_at(text, pointer) {
        Some(n) => Some(
            Seq::new(n as nat, |i: int| json_u64_at(text, pointer + "/"@ + text::dec(i as nat))),
        ),
        None => None,
    }
}

/// The strings of an array in a text; nothing in place of other elements.
pub open spec fn strings_at(text: Seq<char>, pointer: Seq<char>) -> Option<Seq<Option<Seq<char>>>> {
    match json_len_at(text, pointer) {
        Some(n) => Some(
            Seq::new(n as nat, |i: int| json_str_at(text, pointer + "/"@ + text::dec(i as nat))),
        ),
        None => None,
    }
}

/// The fields that a text holds.
pub open spec fn fields_at(text: Seq<char>) -> DraftFieldsV {
    DraftFieldsV {
        hidden_size: json_u64_at(text, "/hidden_size"@),
        num_hidden_layers: json_u64_at(text, "/num_hidden_layers"@),
        num_attention_heads: json_u64_at(text, "/num_attention_heads"@),
        num_key_value_heads: json_u64_at(text, "/num_key_value_heads"@),
        head_dim: json_u64_at(text, "/head_dim"@),
        intermediate_size: json_u64_at(text, "/intermediate_size"@),
        vocab_size: json_u64_at(text, "/vocab_size"@),
        rms_norm_eps: json_f64_at(text, "/rms_norm_eps"@),
        rope_theta: json_f64_at(text, "/rope_theta"@),
        max_position_embeddings: json_u64_at(text, "/max_position_embeddings"@),
        block_size: json_u64_at(text, "/block_size"@),
        mask_token_id: json_u64_at(text, "/dflash_config/mask_token_id"@),
        sliding_window: json_u64_at(text, "/sliding_window"@),
        final_logit_softcapping: json_f64_at(text, "/final_logit_softcapping"@),
        target_layer_ids: numbers_at(text, "/dflash_config/target_layer_ids"@),
        layer_types: strings_at(text, "/layer_types"@),
    }
}

fn element_pointer(pointer: &str, i: usize) -> (r: String)
    ensures
        r@ == pointer@ + "/"@ + text::dec(i as nat),
{
    let mut p = String::from_str(pointer);
    p.append("/");
    text::push_dec(&mut p, i as u64);
    p
}

pub(crate) fn read_numbers(text: &str, pointer: &str) -> (r: Option<Vec<Option<u64>>>)
    ensures
        match r {
            Some(v) => numbers_at(text@, pointer@) == Some(v@),
            None => numbers_at(text@, pointer@) is None,
        },
{
    let n: usize = match json_len(text, pointer) {
        None => {
            return None;
        },
        Some(n) => n,
    };
    let mut out: Vec<Option<u64>> = Vec::new();
    let mut i: usize = 0;
    while i < n
        invariant
            i <= n,
            out@ =~= Seq::new(
                i as nat,
                |k: int| json_u64_at(text@, pointer@ + "/"@ + text::dec(k as nat)),
            ),
        decreases n - i,
    {
        out.push(json_u64(text, element_pointer(pointer, i).as_str()));
        i = i + 1;
    }
    Some(out)
}

fn read_strings(text: &str, pointer: &str) -> (r: Option<Vec<Option<String>>>)
    ensures
        match r {
            Some(v) => strings_at(text@, pointer@) == Some(text_views(v@)),
            None => strings_at(text@, pointer@) is None,
        },
{
    let n: usize = match json_len(text, pointer) {
        None => {
            return None;
        },
        Some(n) => n,
    };
    let mut out: Vec<Option<String>> = Vec::new();
    let mut i: usize = 0;
    while i < n
        invariant
            i <= n,
            out@.len() == i,
            forall|k: int|
                0 <= k < i ==> text_view(#[trigger] out@[k]) == json_str_at(
                    text@,
                    pointer@ + "/"@ + text::dec(k as nat),
                ),
        decreases n - i,
    {
        out.push(json_str(text, element_pointer(pointer, i).as_str()));
        i = i + 1;
    }
    assert(text_views(out@) =~= Seq::new(
        n as nat,
        |k: int| json_str_at(text@, pointer@ + "/"@ + text::dec(k as nat)),
    ));
    Some(out)
}

/// Reads the fields of a draft's configuration.
pub fn draft_fields(text: &str) -> (r: DraftFields)
    ensures
        r@ == fields_at(text@),
{
    DraftFields {
        hidden_size: json_u64(text, "/hidden_size"),
        num_hidden_layers: json_u64(text, "/num_hidden_layers"),
        num_attention_heads: json_u64(text, "/num_attention_heads"),
        num_key_value_heads: json_u64(text, "/num_key_value_heads"),
        head_dim: json_u64(text, "/head_dim"),
        intermediate_size: json_u64(text, "/intermediate_size"),
        vocab_size: json_u64(text, "/vocab_size"),
        rms_norm_eps: json_f64_bits(text, "/rms_norm_eps"),
        rope_theta: json_f64_bits(text, "/rope_theta"),
        max_position_embeddings: json_u64(text, "/max_position_embeddings"),
        block_size: json_u64(text, "/block_size"),
        mask_token_id: json_u64(text, "/dflash_config/mask_token_id"),
        sliding_window: json_u64(text, "/sliding_window"),
        final_logit_softcapping: json_f64_bits(text, "/final_logit_softcapping"),
        target_layer_ids: read_numbers(text, "/dflash_config/target_layer_ids"),
        layer_types: read_strings(text, "/layer_types"),
    }
}

/// A size, or its default.
pub open spec fn size_or(v: Option<u64>, default: usize) -> usize {
    match v {
        Some(n) => n as usize,
        None => default,
    }
}

fn size(v: Option<u64>, default: usize) -> (r: usize)
    ensures
        r == size_or(v, default),
{
    match v {
        Some(n) => n as usize,
        None => default,
    }
}

/// The layer kind of a name.
pub open spec fn kind_named(s: Option<Seq<char>>) -> Option<LayerType> {
    match s {
        Some(n) => if n == "sliding_attention"@ {
            Some(LayerType::SlidingAttention)
        } else if n == "full_attention"@ {
            Some(LayerType::FullAttention)
        } else {
            None
        },
        None => None,
    }
}

/// The layer kinds among the first `n` names; other names are passed over.
pub open spec fn kinds_named(names: Seq<Option<Seq<char>>>, n: int) -> Seq<LayerType>
    decreases n,
{
    if n <= 0 {
        Seq::empty()
    } else {
        match kind_named(names[n - 1]) {
            Some(k) => kinds_named(names, n - 1).push(k),
            None => kinds_named(names, n - 1),
        }
    }
}

/// The numbers among the first `n`; what is no number is passed over.
pub open spec fn ids_among(v: Seq<Option<u64>>, n: int) -> Seq<usize>
    decreases n,
{
    if n <= 0 {
        Seq::empty()
    } else {
        match v[n - 1] {
            Some(x) => ids_among(v, n - 1).push(x as usize),
            None => ids_among(v, n - 1),
        }
    }
}

/// The captured layers that the fields name.
pub open spec fn target_ids(f: DraftFieldsV) -> Seq<usize> {
    match f.target_layer_ids {
        Some(v) => ids_among(v, v.len() as int),
        None => dflash::target_ids_31b(),
    }
}

/// The layer kinds that the fields name; those of the 31B draft where they name none.
pub open spec fn layer_kinds(f: DraftFieldsV) -> Seq<LayerType> {
    match f.layer_types {
        Some(v) => if kinds_named(v, v.len() as int).len() > 0 {
            kinds_named(v, v.len() as int)
        } else {
            dflash::layer_types_31b()
        },
        None => dflash::layer_types_31b(),
    }
}

/// The mask token that the fields name.
pub open spec fn mask_of(f: DraftFieldsV) -> u32 {
    match f.mask_token_id {
        Some(m) => m as u32,
        None => dflash::DFLASH_31B_MASK_TOKEN_ID,
    }
}

/// A configuration is the one that the fields describe.
pub open spec fn described(f: DraftFieldsV, c: DFlashConfig) -> bool {
    &&& c.hidden_size == size_or(f.hidden_size, 5376)
    &&& c.num_hidden_layers == size_or(f.num_hidden_layers, 5)
    &&& c.num_attention_heads == size_or(f.num_attention_heads, 64)
    &&& c.num_key_value_heads == size_or(f.num_key_value_heads, 8)
    &&& c.head_dim == size_or(f.head_dim, 128)
    &&& c.intermediate_size == size_or(f.intermediate_size, 10752)
    &&& c.vocab_size == size_or(f.vocab_size, 262144)
    &&& c.rms_norm_eps_bits == (match f.rms_norm_eps {
        Some(b) => floats::narrowed(b),
        None => dflash::EPS_BITS,
    })
    &&& c.rope_theta_bits == (match f.rope_theta {
        Some(b) => floats::narrowed(b),
        None => dflash::THETA_GLOBAL_F32,
    })
    &&& c.max_position_embeddings == size_or(f.max_position_embeddings, 262144)
    &&& c.block_size == size_or(f.block_size, 16)
    &&& c.target_layer_ids@ == target_ids(f)
    &&& c.mask_token_id == mask_of(f)
    &&& c.layer_types@ == layer_kinds(f)
    &&& c.sliding_window == (match f.sliding_window {
        Some(w) => Some(w as usize),
        None => None,
    })
    &&& c.final_logit_softcapping_bits == (match f.final_logit_softcapping {
        Some(b) => Some(floats::narrowed(b)),
        None => None,
    })
    &&& c.embed_scale_bits == dflash::UNIT_F32
}

fn read_ids(f: &DraftFields) -> (r: Vec<usize>)
    ensures
        r@ == target_ids(f@),
{
    match &f.target_layer_ids {
        None => dflash::default_target_layer_ids(),
        Some(v) => {
            let mut out: Vec<usize> = Vec::new();
            let mut i: usize = 0;
            while i < v.len()
                invariant
                    i <= v@.len(),
                    out@ == ids_among(v@, i as int),
                decreases v@.len() - i,
            {
                match v[i] {
                    Some(x) => {
                        out.push(x as usize);
                    },
                    None => {},
                }
                i = i + 1;
            }
            out
        },
    }
}

fn kind_of_name(s: &Option<String>) -> (r: Option<LayerType>)
    ensures
        r == kind_named(text_view(*s)),
{
    match s {
        None => None,
        Some(n) => if text::str_eq(n.as_str(), "sliding_attention") {
            Some(LayerType::SlidingAttention)
        } else if text::str_eq(n.as_str(), "full_attention") {
            Some(LayerType::FullAttention)
        } else {
            None
        },
    }
}

fn read_kinds(f: &DraftFields) -> (r: Vec<LayerType>)
    ensures
        r@ == layer_kinds(f@),
{
    match &f.layer_types {
        None => dflash::default_layer_types(),
        Some(v) => {
            let ghost names = text_views(v@);
            let mut out: Vec<LayerType> = Vec::new();
            let mut i: usize = 0;
            while i < v.len()
                invariant
                    i <= v@.len(),
                    names == text_views(v@),
                    out@ == kinds_named(names, i as int),
                decreases v@.len() - i,
            {
                assert(names[i as int] == text_view(v@[i as int]));
                match kind_of_name(&v[i]) {
                    Some(k) => {
                        out.push(k);
                    },
                    None => {},
                }
                i = i + 1;
            }
            if out.len() == 0 {
                dflash::default_layer_types()
            } else {
                out
            }
        },
    }
}

/// The head counts can be compared, where the check comes to that.
pub open spec fn heads_divide(c: DFlashConfig) -> bool {
    c.num_key_value_heads > 0 || c.head_dim == 0 || c.target_layer_ids@.len() == 0
        || c.num_hidden_layers == 0 || c.layer_types@.len() != c.num_hidden_layers
}

/// The configuration that the fields describe, before it is checked.
pub fn draft_config(f: &DraftFields) -> (r: DFlashConfig)
    ensures
        described(f@, r),
{
    DFlashConfig {
        hidden_size: size(f.hidden_size, 5376),
        num_hidden_layers: size(f.num_hidden_layers, 5),
        num_attention_heads: size(f.num_attention_heads, 64),
        num_key_value_heads: size(f.num_key_value_heads, 8),
        head_dim: size(f.head_dim, 128),
        intermediate_size: size(f.intermediate_size, 10752),
        vocab_size: size(f.vocab_size, 262_144),
        rms_norm_eps_bits: match f.rms_norm_eps {
            Some(b) => floats::narrow(b),
            None => dflash::EPS_BITS,
        },
        rope_theta_bits: match f.rope_theta {
            Some(b) => floats::narrow(b),
            None => dflash::THETA_GLOBAL_F32,
        },
        max_position_embeddings: size(f.max_position_embeddings, 262_144),
        block_size: size(f.block_size, 16),
        target_layer_ids: read_ids(f),
        mask_token_id: match f.mask_token_id {
            Some(m) => m as u32,
            None => dflash::DFLASH_31B_MASK_TOKEN_ID,
        },
        layer_types: read_kinds(f),
        sliding_window: match f.sliding_window {
            Some(w) => Some(w as usize),
            None => None,
        },
        final_logit_softcapping_bits: match f.final_logit_softcapping {
            Some(b) => Some(floats::narrow(b)),
            None => None,
        },
        embed_scale_bits: dflash::UNIT_F32,
    }
}

/// The outcome of checking the configuration that the fields describe: nothing where
/// the check would divide by zero key heads.
pub open spec fn checked_config(f: DraftFieldsV, r: Option<Result<DFlashConfig>>) -> bool {
    exists|c: DFlashConfig| #[trigger]
        described(f, c) && match r {
            None => !heads_divide(c),
            Some(Ok(d)) => heads_divide(c) && dflash::draft_fault(c) is None && described(f, d),
            Some(Err(e)) => heads_divide(c) && dflash::draft_fault(c) == Some(e@),
        }
}

/// The checked configuration that the fields describe.
pub fn config_from_fields(f: &DraftFields) -> (r: Option<Result<DFlashConfig>>)
    ensures
        checked_config(f@, r),
{
    let c = draft_config(f);
    if c.num_key_value_heads == 0 && c.head_dim != 0 && c.target_layer_ids.len() != 0
        && c.num_hidden_layers != 0 && c.layer_types.len() == c.num_hidden_layers {
        return None;
    }
    match c.validate() {
        Err(e) => Some(Err(e)),
        Ok(()) => Some(Ok(c)),
    }
}

/// The checked configuration that a text describes.
pub fn load_config(text: &str) -> (r: Option<Result<DFlashConfig>>)
    ensures
        match json_fault(text@) {
            Some(e) => r matches Some(x) && error::fails_with(
                x,
                error::config_error("dflash config: "@ + e),
            ),
            None => checked_config(fields_at(text@), r),
        },
{
    match parse_error(text) {
        Some(e) => {
            let mut m = String::from_str("dflash config: ");
            m.append(e.as_str());
            Some(Err(Error::Config(m)))
        },
        None => {
            let f = draft_fields(text);
            config_from_fields(&f)
        },
    }
}

/// The half-width floats that bytes hold, low byte first, widened to singles; an odd
/// last byte is passed over.
pub open spec fn widened(data: Seq<u8>) -> Seq<u32> {
    Seq::new(
        (data.len() / 2) as nat,
        |i: int| ((data[2 * i] + 256 * data[2 * i + 1]) * 0x1_0000) as u32,
    )
}

/// The half-width floats that bytes hold, widened to singles.
pub fn decode_bf16(data: &[u8]) -> (r: Vec<u32>)
    ensures
        r@ == widened(data@),
{
    let mut out: Vec<u32> = Vec::new();
    let len: usize = data.len();
    let n: usize = len / 2;
    let mut i: usize = 0;
    while i < n
        invariant
            i <= n,
            len == data@.len(),
            n == len / 2,
            out@ =~= Seq::new(
                i as nat,
                |k: int| ((data@[2 * k] + 256 * data@[2 * k + 1]) * 0x1_0000) as u32,
            ),
        decreases n - i,
    {
        let b: u16 = data[2 * i] as u16 + 256 * (data[2 * i + 1] as u16);
        out.push(tensor::bf16_bits_to_f32(b));
        i = i + 1;
    }
    out
}

/// What a named tensor comes to.
pub open spec fn tensor_outcome(
    t: Option<(bool, Seq<u8>)>,
    name: Seq<char>,
) -> std::result::Result<Seq<u32>, ErrorV> {
    match t {
        None => Err(error::weights_error("missing "@ + name)),
        Some((half, data)) => if half {
            Ok(widened(data))
        } else {
            Err(error::weights_error(name + ": expected BF16"@))
        },
    }
}

/// The floats of a tensor that was looked up under a name.
pub fn tensor_floats(t: Option<(bool, Vec<u8>)>, name: &str) -> (r: Result<Vec<u32>>)
    ensures
        match tensor_outcome(tensor_view(t), name@) {
            Ok(v) => r matches Ok(x) && x@ == v,
            Err(e) => error::fails_with(r, e),
        },
{
    match t {
        None => {
            let mut m = String::from_str("missing ");
            m.append(name);
            Err(Error::Weights(m))
        },
        Some((half, data)) => {
            if !half {
                let mut m = String::from_str(name);
                m.append(": expected BF16");
                return Err(Error::Weights(m));
            }
            Ok(decode_bf16(data.as_slice()))
        },
    }
}

fn load_tensor(bytes: &[u8], name: &str) -> (r: Result<Vec<u32>>)
    requires
        offsets_fit(bytes@),
    ensures
        match tensor_outcome(safetensors_tensor(bytes@, name@), name@) {
            Ok(v) => r matches Ok(x) && x@ == v,
            Err(e) => error::fails_with(r, e),
        },
{
    tensor_floats(find_tensor(bytes, name), name)
}

/// The floats of a named tensor. A header that names an end beyond what can be addressed
/// is refused.
pub fn load_bf16(bytes: &[u8], name: &str) -> (r: Result<Vec<u32>>)
    ensures
        !offsets_fit(bytes@) ==> error::fails_with(
            r,
            ErrorV { kind: ErrorKind::Safetensors, text: "offset out of range"@ },
        ),
        offsets_fit(bytes@) ==> match tensor_outcome(safetensors_tensor(bytes@, name@), name@) {
            Ok(v) => r matches Ok(x) && x@ == v,
            Err(e) => error::fails_with(r, e),
        },
{
    if !check_offsets(bytes) {
        return Err(Error::Safetensors(String::from_str("offset out of range")));
    }
    load_tensor(bytes, name)
}

/// The tensors of a draft layer, in order.
pub open spec fn layer_tensor_names(i: int) -> Seq<Seq<char>> {
    let p = "layers."@ + text::dec(i as nat);
    seq![
        p + ".input_layernorm.weight"@,
        p + ".post_attention_layernorm.weight"@,
        p + ".self_attn.q_proj.weight"@,
        p + ".self_attn.k_proj.weight"@,
        p + ".self_attn.v_proj.weight"@,
        p + ".self_attn.o_proj.weight"@,
        p + ".self_attn.q_norm.weight"@,
        p + ".self_attn.k_norm.weight"@,
        p + ".mlp.gate_proj.weight"@,
        p + ".mlp.up_proj.weight"@,
        p + ".mlp.down_proj.weight"@,
    ]
}

/// The tensors of a draft with `n` layers, in order.
pub open spec fn draft_tensor_names(n: int) -> Seq<Seq<char>>
    decreases n,
{
    if n <= 0 {
        seq!["fc.weight"@, "hidden_norm.weight"@, "norm.weight"@]
    } else {
        draft_tensor_names(n - 1) + layer_tensor_names(n - 1)
    }
}

fn push_name(out: &mut Vec<String>, i: usize, rest: &str)
    ensures
        text::views(final(out)@) == text::views(old(out)@).push("layers."@ + text::dec(i as nat) + rest@),
{
    let ghost before = out@;
    out.push(text::text1("layers.", i as u64, rest));
    assert(text::views(out@) =~= text::views(before).push("layers."@ + text::dec(i as nat) + rest@));
}

fn push_layer_names(out: &mut Vec<String>, i: usize)
    ensures
        text::views(final(out)@) == text::views(old(out)@) + layer_tensor_names(i as int),
{
    let ghost before = text::views(out@);
    push_name(out, i, ".input_layernorm.weight");
    push_name(out, i, ".post_attention_layernorm.weight");
    push_name(out, i, ".self_attn.q_proj.weight");
    push_name(out, i, ".self_attn.k_proj.weight");
    push_name(out, i, ".self_attn.v_proj.weight");
    push_name(out, i, ".self_attn.o_proj.weight");
    push_name(out, i, ".self_attn.q_norm.weight");
    push_name(out, i, ".self_attn.k_norm.weight");
    push_name(out, i, ".mlp.gate_proj.weight");
    push_name(out, i, ".mlp.up_proj.weight");
    push_name(out, i, ".mlp.down_proj.weight");
    assert(text::views(out@) =~= before + layer_tensor_names(i as int));
}

/// The tensors of a draft with `n` layers.
pub fn tensor_names(n: usize) -> (r: Vec<String>)
    ensures
        text::views(r@) == draft_tensor_names(n as int),
{
    let mut out: Vec<String> = Vec::new();
    out.push(String::from_str("fc.weight"));
    out.push(String::from_str("hidden_norm.weight"));
    out.push(String::from_str("norm.weight"));
    assert(text::views(out@) =~= draft_tensor_names(0));
    let mut i: usize = 0;
    while i < n
        invariant
            i <= n,
            text::views(out@) == draft_tensor_names(i as int),
        decreases n - i,
    {
        push_layer_names(&mut out, i);
        i = i + 1;
    }
    out
}

/// The tensor of a name in bytes comes to floats.
pub open spec fn loads(bytes: Seq<u8>, name: Seq<char>) -> bool {
    tensor_outcome(safetensors_tensor(bytes, name), name) is Ok
}

/// Loads the tensors of a draft with `n_layers` layers from the bytes of the file at
/// `path`, in the order of their names.
pub fn load_weights(path: &str, bytes: &[u8], n_layers: usize) -> (r: Result<Vec<Vec<u32>>>)
    ensures
        !offsets_fit(bytes@) ==> error::fails_with(
            r,
            ErrorV { kind: ErrorKind::Safetensors, text: path@ + ": "@ + "offset out of range"@ },
        ),
        offsets_fit(bytes@) && !safetensors_accepts(bytes@) ==> (r matches Err(e) && e@.kind
            == ErrorKind::Safetensors && text::occurs_at(e@.text, path@ + ": "@, 0)),
        offsets_fit(bytes@) && safetensors_accepts(bytes@) ==> ({
            let names = draft_tensor_names(n_layers as int);
            match r {
                Ok(v) => v@.len() == names.len() && forall|i: int|
                    0 <= i < names.len() ==> tensor_outcome(
                        safetensors_tensor(bytes@, names[i]),
                        names[i],
                    ) == Ok::<Seq<u32>, ErrorV>((#[trigger] v@[i])@),
                Err(e) => exists|i: int|
                    0 <= i < names.len() && (forall|j: int|
                        0 <= j < i ==> loads(bytes@, #[trigger] names[j])) && tensor_outcome(
                        safetensors_tensor(bytes@, #[trigger] names[i]),
                        names[i],
                    ) == Err::<Seq<u32>, ErrorV>(e@),
            }
        }),
{
    if !check_offsets(bytes) {
        let mut m = String::from_str(path);
        m.append(": ");
        m.append("offset out of range");
        return Err(Error::Safetensors(m));
    }
    match safetensors_error(bytes) {
        Some(e) => {
            let mut m = String::from_str(path);
            m.append(": ");
            let ghost head = m@;
            m.append(e.as_str());
            assert(m@.subrange(0, head.len() as int) =~= head);
            return Err(Error::Safetensors(m));
        },
        None => {},
    }
    let names = tensor_names(n_layers);
    let ghost want = draft_tensor_names(n_layers as int);
    let mut out: Vec<Vec<u32>> = Vec::new();
    let mut i: usize = 0;
    while i < names.len()
        invariant
            i <= names@.len(),
            text::views(names@) == want,
            want.len() == names@.len(),
            want == draft_tensor_names(n_layers as int),
            offsets_fit(bytes@),
            safetensors_accepts(bytes@),
            out@.len() == i,
            forall|k: int|
                0 <= k < i ==> tensor_outcome(safetensors_tensor(bytes@, want[k]), want[k]) == Ok::<
                    Seq<u32>,
                    ErrorV,
                >((#[trigger] out@[k])@),
        decreases names@.len() - i,
    {
        assert(want[i as int] == names@[i as int]@);
        match load_tensor(bytes, names[i].as_str()) {
            Err(e) => {
                proof {
                    assert forall|j: int| 0 <= j < i implies loads(bytes@, #[trigger] want[j]) by {
                        assert(out@[j]@ == out@[j]@);
                    }
                    let w = want[i as int];
                    assert(tensor_outcome(safetensors_tensor(bytes@, w), w) == Err::<
                        Seq<u32>,
                        ErrorV,
                    >(e@));
                }
                return Err(e);
            },
            Ok(v) => {
                out.push(v);
            },
        }
        i = i + 1;
    }
    Ok(out)
}

/// The number that eight bytes hold, low byte first.
pub open spec fn little_endian(b: Seq<u8>) -> int {
    b[0] + 0x100 * b[1] + 0x1_0000 * b[2] + 0x100_0000 * b[3] + 0x1_0000_0000 * b[4]
        + 0x100_0000_0000 * b[5] + 0x1_0000_0000_0000 * b[6] + 0x100_0000_0000_0000 * b[7]
}

/// The longest header that is believed.
pub const MAX_HEADER_LEN: u64 = 0x400_0000;

/// The length of the header of the file at `path`, from its first eight bytes.
pub fn header_len(path: &str, b: &[u8; 8]) -> (r: Result<usize>)
    ensures
        ({
            let n = little_endian(b@);
            if n == 0 || n > MAX_HEADER_LEN {
                error::fails_with(
                    r,
                    ErrorV {
                        kind: ErrorKind::Safetensors,
                        text: path@ + ": implausible header_len="@ + text::dec(n as nat),
                    },
                )
            } else {
                r matches Ok(x) && x == n
            }
        }),
{
    let n: u64 = b[0] as u64 + 0x100 * (b[1] as u64) + 0x1_0000 * (b[2] as u64) + 0x100_0000 * (
    b[3] as u64) + 0x1_0000_0000 * (b[4] as u64) + 0x100_0000_0000 * (b[5] as u64)
        + 0x1_0000_0000_0000 * (b[6] as u64) + 0x100_0000_0000_0000 * (b[7] as u64);
    if n == 0 || n > MAX_HEADER_LEN {
        let mut m = String::from_str(path);
        m.append(": implausible header_len=");
        text::push_dec(&mut m, n);
        return Err(Error::Safetensors(m));
    }
    Ok(n as usize)
}

/// What a conditioner's header says.
#[derive(Clone, Copy, Debug, PartialEq, Eq)]
pub struct ConditionerShapes {
    /// Rows and columns of the projection.
    pub fc: (usize, usize),
    /// Floats of the norm.
    pub norm: usize,
}

/// The first thing wrong with the header of the file at `path`.
pub open spec fn header_fault(
    path: Seq<char>,
    parse: Option<Seq<char>>,
    object: bool,
    has_fc: bool,
    has_norm: bool,
) -> Option<ErrorV> {
    match parse {
        Some(e) => Some(
            ErrorV { kind: ErrorKind::Safetensors, text: path + ": header json: "@ + e },
        ),
        None => if !object {
            Some(ErrorV { kind: ErrorKind::Safetensors, text: path + ": header not object"@ })
        } else if !has_fc {
            Some(error::weights_error("missing fc.weight in header"@))
        } else if !has_norm {
            Some(error::weights_error("missing hidden_norm.weight in header"@))
        } else {
            None
        },
    }
}

/// Checks what was found in the header of the file at `path`.
pub fn check_header(
    path: &str,
    parse: Option<String>,
    object: bool,
    has_fc: bool,
    has_norm: bool,
) -> (r: Result<()>)
    ensures
        match header_fault(path@, text_view(parse), object, has_fc, has_norm) {
            Some(e) => error::fails_with(r, e),
            None => r is Ok,
        },
{
    match parse {
        Some(e) => {
            let mut m = String::from_str(path);
            m.append(": header json: ");
            m.append(e.as_str());
            return Err(Error::Safetensors(m));
        },
        None => {},
    }
    if !object {
        let mut m = String::from_str(path);
        m.append(": header not object");
        return Err(Error::Safetensors(m));
    }
    if !has_fc {
        return Err(Error::Weights(String::from_str("missing fc.weight in header")));
    }
    if !has_norm {
        return Err(Error::Weights(String::from_str("missing hidden_norm.weight in header")));
    }
    Ok(())
}

/// The shapes of a conditioner's weights, from the header of the file at `path`.
pub fn conditioner_shapes(path: &str, header: &[u8]) -> (r: Result<ConditionerShapes>)
    ensures
        match header_fault(
            path@,
            json_bytes_fault(header@),
            json_object(header@),
            json_member(header@, "fc.weight"@),
            json_member(header@, "hidden_norm.weight"@),
        ) {
            Some(e) => error::fails_with(r, e),
            None => r matches Ok(s) && {
                &&& s.fc.0 == size_or(json_element_u64(header@, "fc.weight"@, "shape"@, 0), 0)
                &&& s.fc.1 == size_or(json_element_u64(header@, "fc.weight"@, "shape"@, 1), 0)
                &&& s.norm == size_or(
                    json_element_u64(header@, "hidden_norm.weight"@, "shape"@, 0),
                    0,
                )
            },
        },
{
    let checked = check_header(
        path,
        parse_bytes_error(header),
        json_is_object(header),
        json_has_member(header, "fc.weight"),
        json_has_member(header, "hidden_norm.weight"),
    );
    match checked {
        Err(e) => {
            return Err(e);
        },
        Ok(()) => {},
    }
    Ok(
        ConditionerShapes {
            fc: (
                size(json_element(header, "fc.weight", "shape", 0), 0),
                size(json_element(header, "fc.weight", "shape", 1), 0),
            ),
            norm: size(json_element(header, "hidden_norm.weight", "shape", 0), 0),
        },
    )
}

/// The configuration of a conditioner: that of the 31B draft, with the width, the
/// number of layers, the captured layers and the mask that the fields name.
pub open spec fn conditioner_described(f: DraftFieldsV, c: DFlashConfig) -> bool {
    &&& c.hidden_size == size_or(f.hidden_size, 5376)
    &&& c.num_hidden_layers == size_or(f.num_hidden_layers, 5)
    &&& c.target_layer_ids@ == target_ids(f)
    &&& c.mask_token_id == mask_of(f)
    &&& c.layer_types@ == dflash::layer_types_31b()
    &&& c.num_attention_heads == 64
    &&& c.num_key_value_heads == 8
    &&& c.head_dim == 128
    &&& c.intermediate_size == 10752
    &&& c.vocab_size == 262144
    &&& c.rms_norm_eps_bits == dflash::EPS_BITS
    &&& c.rope_theta_bits == dflash::THETA_GLOBAL_F32
    &&& c.max_position_embeddings == 262144
    &&& c.block_size == 16
    &&& c.sliding_window == Some(2048usize)
    &&& c.final_logit_softcapping_bits == Some(crate::config::SOFTCAP_BITS)
    &&& c.embed_scale_bits == dflash::UNIT_F32
}

/// The checked configuration of a conditioner.
pub fn conditioner_config(f: &DraftFields) -> (r: Result<DFlashConfig>)
    ensures
        exists|c: DFlashConfig| #[trigger]
            conditioner_described(f@, c) && match r {
                Ok(d) => dflash::draft_fault(c) is None && conditioner_described(f@, d),
                Err(e) => dflash::draft_fault(c) == Some(e@),
            },
{
    let mut c = DFlashConfig::gemma4_31b();
    c.hidden_size = size(f.hidden_size, 5376);
    c.num_hidden_layers = size(f.num_hidden_layers, 5);
    c.target_layer_ids = read_ids(f);
    c.mask_token_id = match f.mask_token_id {
        Some(m) => m as u32,
        None => dflash::DFLASH_31B_MASK_TOKEN_ID,
    };
    assert(conditioner_described(f@, c));
    match c.validate() {
        Err(e) => Err(e),
        Ok(()) => Ok(c),
    }
}

/// The configuration and the weight shapes of a conditioner, from the text of its
/// configuration and the header of its weights at `path`.
pub fn peek_conditioner_shapes(text: &str, path: &str, header: &[u8]) -> (r: Result<
    (DFlashConfig, ConditionerShapes),
>)
    ensures
        json_fault(text@) matches Some(e) ==> error::fails_with(
            r,
            error::config_error("dflash config: "@ + e),
        ),
        json_fault(text@) is None ==> exists|c: DFlashConfig| #[trigger]
            conditioner_described(fields_at(text@), c) && match dflash::draft_fault(c) {
                Some(e) => error::fails_with(r, e),
                None => match header_fault(
                    path@,
                    json_bytes_fault(header@),
                    json_object(header@),
                    json_member(header@, "fc.weight"@),
                    json_member(header@, "hidden_norm.weight"@),
                ) {
                    Some(e) => error::fails_with(r, e),
                    None => r matches Ok(x) && conditioner_described(fields_at(text@), x.0)
                        && x.1.fc.0 == size_or(
                        json_element_u64(header@, "fc.weight"@, "shape"@, 0),
                        0,
                    ) && x.1.fc.1 == size_or(
                        json_element_u64(header@, "fc.weight"@, "shape"@, 1),
                        0,
                    ) && x.1.norm == size_or(
                        json_element_u64(header@, "hidden_norm.weight"@, "shape"@, 0),
                        0,
                    ),
                },
            },
{
    match parse_error(text) {
        Some(e) => {
            let mut m = String::from_str("dflash config: ");
            m.append(e.as_str());
            return Err(Error::Config(m));
        },
        None => {},
    }
    let f = draft_fields(text);
    let c = match conditioner_config(&f) {
        Err(e) => {
            return Err(e);
        },
        Ok(c) => c,
    };
    match conditioner_shapes(path, header) {
        Err(e) => Err(e),
        Ok(s) => Ok((c, s)),
    }
}

/// What tensor `k` of a layer is for.
pub open spec fn layer_part(k: int) -> Seq<char> {
    if k == 0 {
        ".input_layernorm.weight"@
    } else if k == 1 {
        ".post_attention_layernorm.weight"@
    } else if k == 2 {
        ".self_attn.q_proj.weight"@
    } else if k == 3 {
        ".self_attn.k_proj.weight"@
    } else if k == 4 {
        ".self_attn.v_proj.weight"@
    } else if k == 5 {
        ".self_attn.o_proj.weight"@
    } else if k == 6 {
        ".self_attn.q_norm.weight"@
    } else if k == 7 {
        ".self_attn.k_norm.weight"@
    } else if k == 8 {
        ".mlp.gate_proj.weight"@
    } else if k == 9 {
        ".mlp.up_proj.weight"@
    } else {
        ".mlp.down_proj.weight"@
    }
}

/// The tensors of a draft lie layer by layer behind the three that it has once, each
/// layer's in the same order and under that layer's number.
pub proof fn draft_tensors_lie_layer_by_layer(n: int, i: int, k: int)
    requires
        0 <= i < n,
        0 <= k < 11,
    ensures
        draft_tensor_names(n).len() == 3 + 11 * n,
        draft_tensor_names(n)[0] == "fc.weight"@,
        draft_tensor_names(n)[1] == "hidden_norm.weight"@,
        draft_tensor_names(n)[2] == "norm.weight"@,
        draft_tensor_names(n)[3 + 11 * i + k] == "layers."@ + text::dec(i as nat) + layer_part(k),
    decreases n,
{
    if n > 1 {
        let j = if i < n - 1 {
            i
        } else {
            0
        };
        draft_tensors_lie_layer_by_layer(n - 1, j, k);
    } else {
        assert(draft_tensor_names(0).len() == 3);
    }
}

} // verus!
