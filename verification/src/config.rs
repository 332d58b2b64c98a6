//! What an engine is asked to be.

use crate::float_bits::F32;
use vstd::prelude::*;

verus! {

/// Execution provider, that is the hardware to run on.
#[derive(Clone, Copy, Debug, PartialEq, Eq, Structural)]
pub enum Device {
    /// The best one that is available: TensorRT, then CUDA, then CPU.
    Auto,
    Cpu,
    Cuda,
    TensorRt,
}

/// Floating-point precision of inference on a GPU.
#[derive(Clone, Copy, Debug, PartialEq, Eq, Structural)]
pub enum Precision {
    Fp32,
    Fp16,
}

/// Full configuration of an engine.
#[derive(Clone, Debug)]
pub struct EngineConfig {
    /// Path to the ONNX model file.
    pub model_path: String,
    /// Requested execution provider.
    pub device: Device,
    /// Precision on a GPU; a CPU always works in single precision.
    pub precision: Precision,
    /// Index of the GPU.
    pub device_id: i32,
    /// Capture CUDA graphs and replay them: on a TensorRT device the TensorRT provider
    /// does so, and the CUDA provider behind it keeps its own default; on a CUDA device
    /// the CUDA provider does so; on a CPU nothing does.
    pub enable_cuda_graph: bool,
    /// Workspace limit of the TensorRT builder in bytes.
    pub trt_workspace_bytes: u64,
    /// Directory for TensorRT's engine and timing caches.
    pub trt_cache_dir: String,
    /// The largest batch that the engine takes.
    pub max_batch_size: usize,
    /// Threads within an operator; 0 leaves the choice to the runtime.
    pub intra_op_threads: usize,
    /// Threads across operators; 0 leaves the choice to the runtime.
    pub inter_op_threads: usize,
    /// Mean of each channel, for normalisation.
    pub mean: [F32; 3],
    /// Standard deviation of each channel, for normalisation.
    pub std: [F32; 3],
    /// Fall back to a weaker provider where the requested one cannot be had.
    pub auto_fallback: bool,
    /// Let TensorRT optimise at its highest level.
    pub trt_max_optimization: bool,
}

/// The channel means of ImageNet: 0.485, 0.456, 0.406.
pub open spec fn imagenet_mean() -> Seq<F32> {
    seq![F32 { bits: 0x3ef8_51ec }, F32 { bits: 0x3ee9_78d5 }, F32 { bits: 0x3ecf_df3b }]
}

/// The channel standard deviations of ImageNet: 0.229, 0.224, 0.225.
pub open spec fn imagenet_std() -> Seq<F32> {
    seq![F32 { bits: 0x3e6a_7efa }, F32 { bits: 0x3e65_6042 }, F32 { bits: 0x3e66_6666 }]
}

impl Default for EngineConfig {
    /// Any device, half precision, batches of one, a workspace of 4 GiB, the
    /// statistics of ImageNet, and fallback to weaker providers.
    fn default() -> (res: Self)
        ensures
            res.model_path@ == Seq::<char>::empty(),
            res.device == Device::Auto,
            res.precision == Precision::Fp16,
            res.device_id == 0,
            !res.enable_cuda_graph,
            res.trt_workspace_bytes == 0x1_0000_0000,
            res.trt_cache_dir@ == "trt_cache"@,
            res.max_batch_size == 1,
            res.intra_op_threads == 0,
            res.inter_op_threads == 0,
            res.mean@ == imagenet_mean(),
            res.std@ == imagenet_std(),
            res.auto_fallback,
            res.trt_max_optimization,
    {
        EngineConfig {
            model_path: String::new(),
            device: Device::Auto,
            precision: Precision::Fp16,
            device_id: 0,
            enable_cuda_graph: false,
            trt_workspace_bytes: 4 * 1024 * 1024 * 1024,
            trt_cache_dir: "trt_cache".to_owned(),
            max_batch_size: 1,
            intra_op_threads: 0,
            inter_op_threads: 0,
            mean: [F32 { bits: 0x3ef8_51ec }, F32 { bits: 0x3ee9_78d5 }, F32 { bits: 0x3ecf_df3b }],
            std: [F32 { bits: 0x3e6a_7efa }, F32 { bits: 0x3e65_6042 }, F32 { bits: 0x3e66_6666 }],
            auto_fallback: true,
            trt_max_optimization: true,
        }
    }
}

} // verus!
