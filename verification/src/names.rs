//! The keys under which a bundle stores the weights of a model.

use vstd::prelude::*;
use vstd::string::*;

verus! {

/// The per-layer weights of a decoder, in the order in which they are loaded.
#[derive(Clone, Copy, Debug, PartialEq, Eq, Structural)]
pub enum LayerWeight {
    /// The normalisation weight applied before attention.
    AttentionNorm,
    /// The query projection.
    Query,
    /// The key projection.
    Key,
    /// The value projection.
    Value,
    /// The projection of the attention output.
    Output,
    /// The normalisation weight applied before the feed-forward block.
    FeedForwardNorm,
    /// The up projection of the feed-forward block.
    Up,
    /// The gating projection of the feed-forward block.
    Gate,
    /// The down projection of the feed-forward block.
    Down,
}

impl LayerWeight {
    /// The part of a key that names this weight inside its layer.
    pub open spec fn spec_role(self) -> Seq<char> {
        match self {
            LayerWeight::AttentionNorm => "input_layernorm"@,
            LayerWeight::Query => "self_attn.q_proj"@,
            LayerWeight::Key => "self_attn.k_proj"@,
            LayerWeight::Value => "self_attn.v_proj"@,
            LayerWeight::Output => "self_attn.o_proj"@,
            LayerWeight::FeedForwardNorm => "post_attention_layernorm"@,
            LayerWeight::Up => "mlp.up_proj"@,
            LayerWeight::Gate => "mlp.gate_proj"@,
            LayerWeight::Down => "mlp.down_proj"@,
        }
    }

    /// The part of a key that names this weight inside its layer.
    pub fn role(self) -> (role: &'static str)
        ensures
            role@ == self.spec_role(),
    {
        match self {
            LayerWeight::AttentionNorm => "input_layernorm",
            LayerWeight::Query => "self_attn.q_proj",
            LayerWeight::Key => "self_attn.k_proj",
            LayerWeight::Value => "self_attn.v_proj",
            LayerWeight::Output => "self_attn.o_proj",
            LayerWeight::FeedForwardNorm => "post_attention_layernorm",
            LayerWeight::Up => "mlp.up_proj",
            LayerWeight::Gate => "mlp.gate_proj",
            LayerWeight::Down => "mlp.down_proj",
        }
    }
}

/// The key of the output projection, which the embedding table shares.
pub open spec fn head_key() -> Seq<char> {
    "lm_head.weight"@
}

/// The key of the final normalisation weight.
pub open spec fn norm_key() -> Seq<char> {
    "model.norm.weight"@
}

/// The decimal digit for a value below ten.
pub open spec fn digit(value: nat) -> char {
    if value == 0 {
        '0'
    } else if value == 1 {
        '1'
    } else if value == 2 {
        '2'
    } else if value == 3 {
        '3'
    } else if value == 4 {
        '4'
    } else if value == 5 {
        '5'
    } else if value == 6 {
        '6'
    } else if value == 7 {
        '7'
    } else if value == 8 {
        '8'
    } else {
        '9'
    }
}

/// A number in decimal, without leading zeros.
pub open spec fn decimal(value: nat) -> Seq<char>
    decreases value,
{
    if value < 10 {
        seq![digit(value)]
    } else {
        decimal(value / 10).push(digit(value % 10))
    }
}

/// The key of one weight of one layer: `model.layers.`, the layer's number,
/// a dot, the weight's role, and `.weight`.
pub open spec fn layer_key(layer: nat, weight: LayerWeight) -> Seq<char> {
    "model.layers."@ + decimal(layer) + "."@ + weight.spec_role() + ".weight"@
}

fn digit_str(value: usize) -> (text: &'static str)
    requires
        value < 10,
    ensures
        text@ == seq![digit(value as nat)],
{
    proof {
        reveal_strlit("0");
        reveal_strlit("1");
        reveal_strlit("2");
        reveal_strlit("3");
        reveal_strlit("4");
        reveal_strlit("5");
        reveal_strlit("6");
        reveal_strlit("7");
        reveal_strlit("8");
        reveal_strlit("9");
    }
    let text = if value == 0 {
        "0"
    } else if value == 1 {
        "1"
    } else if value == 2 {
        "2"
    } else if value == 3 {
        "3"
    } else if value == 4 {
        "4"
    } else if value == 5 {
        "5"
    } else if value == 6 {
        "6"
    } else if value == 7 {
        "7"
    } else if value == 8 {
        "8"
    } else {
        "9"
    };
    assert(text@ =~= seq![digit(value as nat)]);
    text
}

/// Writes `value` in decimal.
pub fn decimal_string(value: usize) -> (text: String)
    ensures
        text@ == decimal(value as nat),
    decreases value,
{
    if value < 10 {
        String::from_str(digit_str(value))
    } else {
        let mut text = decimal_string(value / 10);
        text.append(digit_str(value % 10));
        assert(text@ =~= decimal(value as nat));
        text
    }
}

/// Builds the key of one weight of one layer.
pub fn layer_key_string(layer: usize, weight: LayerWeight) -> (key: String)
    ensures
        key@ == layer_key(layer as nat, weight),
{
    let mut key = String::from_str("model.layers.");
    let number = decimal_string(layer);
    key.append(number.as_str());
    key.append(".");
    key.append(weight.role());
    key.append(".weight");
    key
}

} // verus!
