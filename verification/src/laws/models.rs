//! What is read off a model, and how errors are worded.

use crate::error::Error;
use crate::model::{model_defect, resolve_model_info, ModelInfo, Port, PortKind};
use crate::text::decimal;
use vstd::prelude::*;

verus! {

/// Dimension `i` of a port is a stated one.
pub open spec fn states(port: Port, i: int) -> bool {
    match port.kind {
        PortKind::Tensor { shape } => i < shape@.len() && shape@[i] > 0,
        PortKind::Other => false,
    }
}

/// `n` is dimension `i` of a port where the port states it, and `default` otherwise.
pub open spec fn stated_or(port: Port, i: int, default: int, n: usize) -> bool {
    &&& states(port, i) && port.kind->shape@[i] <= usize::MAX ==> n == port.kind->shape@[i]
    &&& !states(port, i) ==> n == default
}

/// A model is usable: its first input is a tensor of four dimensions, and it has two
/// outputs.
pub open spec fn usable(inputs: Seq<Port>, outputs: Seq<Port>) -> bool {
    &&& inputs.len() > 0
    &&& match inputs[0].kind {
        PortKind::Tensor { shape } => shape@.len() == 4,
        PortKind::Other => false,
    }
    &&& outputs.len() >= 2
}

/// Law: a usable model is taken with the dimensions that it states, batch, channels,
/// height and width of its input, queries of its first output and classes of its second,
/// and with 3, 384, 384, 300 and 91 for those that it leaves open; its names are kept.
pub proof fn law_usable_models(
    inputs: &Vec<Port>,
    outputs: &Vec<Port>,
    max_batch: usize,
    res: Result<ModelInfo, Error>,
)
    requires
        call_ensures(resolve_model_info, (inputs, outputs, max_batch), res),
        usable(inputs@, outputs@),
    ensures
        res is Ok,
        ({
            let info = res->Ok_0;
            &&& stated_or(inputs@[0], 1, 3, info.input_channels)
            &&& stated_or(inputs@[0], 2, 384, info.input_height)
            &&& stated_or(inputs@[0], 3, 384, info.input_width)
            &&& stated_or(outputs@[0], 1, 300, info.num_queries)
            &&& stated_or(outputs@[1], 2, 91, info.num_classes)
            &&& info.max_batch == max_batch
            &&& info.input_name@ == inputs@[0].name@
            &&& info.output_names@.len() == outputs@.len()
            &&& forall|i: int|
                0 <= i < outputs@.len() ==> (#[trigger] info.output_names@[i])@
                    == outputs@[i].name@
        }),
{
}

/// Law: any other model is refused, with the first thing that is wrong: no inputs, no
/// tensor, another number of dimensions, too few outputs.
pub proof fn law_unusable_models(
    inputs: &Vec<Port>,
    outputs: &Vec<Port>,
    max_batch: usize,
    res: Result<ModelInfo, Error>,
)
    requires
        call_ensures(resolve_model_info, (inputs, outputs, max_batch), res),
        !usable(inputs@, outputs@),
    ensures
        res is Err && res->Err_0 is InvalidModel,
        ({
            let why = res->Err_0->InvalidModel_0@;
            if inputs@.len() == 0 {
                why == "Model has no inputs"@
            } else {
                match inputs@[0].kind {
                    PortKind::Other => why == "Expected tensor input"@,
                    PortKind::Tensor { shape } => if shape@.len() != 4 {
                        why == "Expected 4-D NCHW input, got "@ + decimal(shape@.len()) + "-D"@
                    } else {
                        why == "Expected at least 2 outputs (pred_boxes, pred_logits), found "@
                            + decimal(outputs@.len())
                    },
                }
            }
        }),
{
    assert(model_defect(inputs@, outputs@) is Some);
}

/// Law: the text of an error names what went wrong and carries the cause as it is.
pub proof fn law_message(e: Error, res: String)
    requires
        call_ensures(Error::message, (&e,), res),
    ensures
        match e {
            Error::Ort(why) => res@ == "ORT error: "@ + why@,
            Error::Io(why) => res@ == "I/O error: "@ + why@,
            Error::Image(why) => res@ == "Image error: "@ + why@,
            Error::ModelNotFound(path) => res@ == "Model file not found: "@ + path@,
            Error::InvalidModel(why) => res@ == "Invalid model: "@ + why@,
            Error::SessionBuild(why) => res@ == "Session build error: "@ + why@,
            Error::BatchTooLarge { requested, max } => res@ == "Batch too large: requested "@
                + decimal(requested as nat) + ", max "@ + decimal(max as nat),
            Error::NoProviderAvailable => res@ == "All execution providers failed to initialize"@,
            Error::PipelineStopped => res@ == "Pipeline stopped"@,
        },
{
}

} // verus!
