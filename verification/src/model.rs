//! The shapes that a loaded model declares.

use crate::error::Error;
use crate::text::{append_decimal, decimal};
use vstd::prelude::*;
use vstd::string::StringExecFns;

verus! {

/// What an input or an output of a model holds.
#[derive(Clone, Debug)]
pub enum PortKind {
    /// A tensor and its dimensions; one that is not positive is left open.
    Tensor { shape: Vec<i64> },
    /// A sequence, a map or something else.
    Other,
}

/// An input or an output of a model.
#[derive(Clone, Debug)]
pub struct Port {
    pub name: String,
    pub kind: PortKind,
}

/// The shapes and names that inference needs of a model.
#[derive(Clone, Debug)]
pub struct ModelInfo {
    pub input_width: usize,
    pub input_height: usize,
    pub input_channels: usize,
    pub num_queries: usize,
    pub num_classes: usize,
    pub max_batch: usize,
    /// Name of the first input.
    pub input_name: String,
    /// Names of the outputs, boxes and logits first.
    pub output_names: Vec<String>,
}

/// Channels, height and width of an input that leaves them open.
pub const DEFAULT_CHANNELS: usize = 3;

pub const DEFAULT_SIDE: usize = 384;

/// Queries and classes of outputs that leave them open.
pub const DEFAULT_QUERIES: usize = 300;

pub const DEFAULT_CLASSES: usize = 91;

/// Dimension `i` of a shape, or `default` where the shape leaves it open.
pub open spec fn dim_or(shape: Seq<i64>, i: int, default: usize) -> usize {
    if i < shape.len() && shape[i] > 0 {
        shape[i] as usize
    } else {
        default
    }
}

/// Dimension `i` of a port, or `default` where it is left open or no tensor.
pub open spec fn port_dim_or(port: Port, i: int, default: usize) -> usize {
    match port.kind {
        PortKind::Tensor { shape } => dim_or(shape@, i, default),
        PortKind::Other => default,
    }
}

/// Why a model with these inputs and outputs cannot be used.
pub open spec fn model_defect(inputs: Seq<Port>, outputs: Seq<Port>) -> Option<Seq<char>> {
    if inputs.len() == 0 {
        Some("Model has no inputs"@)
    } else if inputs[0].kind is Other {
        Some("Expected tensor input"@)
    } else if inputs[0].kind->shape@.len() != 4 {
        Some("Expected 4-D NCHW input, got "@ + decimal(inputs[0].kind->shape@.len()) + "-D"@)
    } else if outputs.len() < 2 {
        Some(
            "Expected at least 2 outputs (pred_boxes, pred_logits), found "@ + decimal(
                outputs.len(),
            ),
        )
    } else {
        None
    }
}

/// `info` is what a usable model declares.
pub open spec fn describes(
    info: ModelInfo,
    inputs: Seq<Port>,
    outputs: Seq<Port>,
    max_batch: usize,
) -> bool {
    &&& info.input_channels == port_dim_or(inputs[0], 1, DEFAULT_CHANNELS)
    &&& info.input_height == port_dim_or(inputs[0], 2, DEFAULT_SIDE)
    &&& info.input_width == port_dim_or(inputs[0], 3, DEFAULT_SIDE)
    &&& info.num_queries == port_dim_or(outputs[0], 1, DEFAULT_QUERIES)
    &&& info.num_classes == port_dim_or(outputs[1], 2, DEFAULT_CLASSES)
    &&& info.max_batch == max_batch
    &&& info.input_name@ == inputs[0].name@
    &&& info.output_names@.len() == outputs.len()
    &&& forall|i: int|
        0 <= i < outputs.len() ==> (#[trigger] info.output_names@[i])@ == outputs[i].name@
}

fn port_dim(port: &Port, i: usize, default: usize) -> (res: usize)
    ensures
        res == port_dim_or(*port, i as int, default),
{
    match &port.kind {
        PortKind::Tensor { shape } => {
            if i < shape.len() && shape[i] > 0 {
                shape[i] as usize
            } else {
                default
            }
        },
        PortKind::Other => default,
    }
}

/// Reads the shapes of a model off its inputs and outputs.
pub fn resolve_model_info(inputs: &Vec<Port>, outputs: &Vec<Port>, max_batch: usize) -> (res:
    Result<ModelInfo, Error>)
    ensures
        match model_defect(inputs@, outputs@) {
            Some(why) => res matches Err(Error::InvalidModel(text)) && text@ == why,
            None => res matches Ok(info) && describes(info, inputs@, outputs@, max_batch),
        },
{
    if inputs.len() == 0 {
        return Err(Error::InvalidModel("Model has no inputs".to_owned()));
    }
    let input = &inputs[0];
    match &input.kind {
        PortKind::Tensor { shape } => {
            if shape.len() != 4 {
                let mut why = "Expected 4-D NCHW input, got ".to_owned();
                append_decimal(&mut why, shape.len());
                why.append("-D");
                return Err(Error::InvalidModel(why));
            }
        },
        PortKind::Other => {
            return Err(Error::InvalidModel("Expected tensor input".to_owned()));
        },
    }
    if outputs.len() < 2 {
        let mut why = "Expected at least 2 outputs (pred_boxes, pred_logits), found ".to_owned();
        append_decimal(&mut why, outputs.len());
        return Err(Error::InvalidModel(why));
    }
    let mut output_names: Vec<String> = Vec::new();
    let mut i: usize = 0;
    while i < outputs.len()
        invariant
            i <= outputs@.len(),
            output_names@.len() == i,
            forall|j: int| 0 <= j < i ==> (#[trigger] output_names@[j])@ == outputs@[j].name@,
        decreases outputs@.len() - i,
    {
        output_names.push(outputs[i].name.clone());
        i = i + 1;
    }
    Ok(
        ModelInfo {
            input_width: port_dim(input, 3, DEFAULT_SIDE),
            input_height: port_dim(input, 2, DEFAULT_SIDE),
            input_channels: port_dim(input, 1, DEFAULT_CHANNELS),
            num_queries: port_dim(&outputs[0], 1, DEFAULT_QUERIES),
            num_classes: port_dim(&outputs[1], 2, DEFAULT_CLASSES),
            max_batch,
            input_name: input.name.clone(),
            output_names,
        },
    )
}

} // verus!
