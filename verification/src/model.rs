//! What the service reports about its model, and how it reads the model's
//! raw outputs.

use vstd::prelude::*;

verus! {

/// Channels of the model input; each carries the same mel history.
pub const MODEL_CHANNELS: usize = 3;

/// Name and element type of one model input or output.
pub struct TensorDetails {
    pub name: String,
    pub data_type: String,
}

/// The health report of the loaded model.
pub struct ModelInfo {
    pub status: String,
    pub inputs: Vec<TensorDetails>,
    pub outputs: Vec<TensorDetails>,
}

impl TensorDetails {
    /// The details of a tensor with the given name and element type.
    pub fn new(name: String, data_type: String) -> (d: TensorDetails)
        ensures
            d.name@ == name@,
            d.data_type@ == data_type@,
    {
        TensorDetails { name, data_type }
    }
}

impl ModelInfo {
    /// The report of a loaded model with the given inputs and outputs; its
    /// status is `Happy`.
    pub fn healthy(inputs: Vec<TensorDetails>, outputs: Vec<TensorDetails>) -> (info: ModelInfo)
        ensures
            info.status@ == "Happy"@,
            info.inputs == inputs,
            info.outputs == outputs,
    {
        ModelInfo { status: "Happy".to_owned(), inputs, outputs }
    }
}

/// How the raw model outputs are turned into a probability.
#[derive(Clone, Copy, Debug, PartialEq, Eq, Structural)]
pub enum OutputLayout {
    /// One value: a probability if it lies in `[0, 1]`, else a logit.
    Single,
    /// Two or more values: the first two are class logits; index 1 is the
    /// positive class.
    TwoClass,
    /// No value: the probability is zero.
    Missing,
}

/// The layout of `count` raw outputs.
pub fn output_layout(count: usize) -> (layout: OutputLayout)
    ensures
        count == 0 <==> layout == OutputLayout::Missing,
        count == 1 <==> layout == OutputLayout::Single,
        count >= 2 <==> layout == OutputLayout::TwoClass,
{
    if count == 1 {
        OutputLayout::Single
    } else if count >= 2 {
        OutputLayout::TwoClass
    } else {
        OutputLayout::Missing
    }
}

} // verus!
