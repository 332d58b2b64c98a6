//! Which device an engine ends up on, and how its session is built.

use crate::config::{Device, EngineConfig, Precision};
use crate::error::Error;
use crate::provider::{
    active_precision, build_device_chain, check_model_file, device_chain, session_plan,
    wants_pinned_input, Provider, ProviderSearch, SessionPlan,
};
use vstd::prelude::*;

verus! {

/// Fallback from `a` to `b` goes to a weaker device: TensorRT, then CUDA, then CPU.
pub open spec fn weaker(a: Device, b: Device) -> bool {
    ||| a == Device::TensorRt && (b == Device::Cuda || b == Device::Cpu)
    ||| a == Device::Cuda && b == Device::Cpu
}

/// Law: the chain starts with the requested device, or with TensorRT where none is
/// requested, and goes on with every weaker device in turn, or with none where fallback
/// is not allowed.
pub proof fn law_build_device_chain(config: &EngineConfig, res: Vec<Device>, d: Device)
    requires
        call_ensures(build_device_chain, (config,), res),
    ensures
        ({
            let first = if config.device == Device::Auto {
                Device::TensorRt
            } else {
                config.device
            };
            &&& res@.len() > 0 && res@[0] == first
            &&& forall|i: int, j: int| 0 <= i < j < res@.len() ==> weaker(res@[i], res@[j])
            &&& config.auto_fallback || config.device == Device::Auto ==> (weaker(first, d)
                ==> res@.contains(d))
            &&& !config.auto_fallback && config.device != Device::Auto ==> res@.len() == 1
        }),
{
    let chain = device_chain(config.device, config.auto_fallback);
    if config.auto_fallback || config.device == Device::Auto {
        if config.device == Device::Auto || config.device == Device::TensorRt {
            assert(chain[1] == Device::Cuda && chain[2] == Device::Cpu);
        } else if config.device == Device::Cuda {
            assert(chain[1] == Device::Cpu);
        }
    }
}

/// Law: a GPU works at the requested precision and anything else in single precision;
/// a GPU alone wants page-locked input.
pub proof fn law_device_traits(
    device: Device,
    requested: Precision,
    precision: Precision,
    pinned: bool,
)
    requires
        call_ensures(active_precision, (device, requested), precision),
        call_ensures(wants_pinned_input, (device,), pinned),
    ensures
        pinned <==> device == Device::TensorRt || device == Device::Cuda,
        precision == if pinned {
            requested
        } else {
            Precision::Fp32
        },
{
}

/// Law: a model file that is there is accepted, and one that is not is reported by its
/// path.
pub proof fn law_check_model_file(exists_: bool, path: &String, res: Result<(), Error>)
    requires
        call_ensures(check_model_file, (exists_, path), res),
    ensures
        res is Ok <==> exists_,
        res is Err ==> res->Err_0 is ModelNotFound && res->Err_0->ModelNotFound_0@ == path@,
{
}

/// Law: a search starts at the head of the configured chain, with nothing found.
pub proof fn law_search_starts(
    config: &EngineConfig,
    res: ProviderSearch,
    chain: Vec<Device>,
    next: Option<Device>,
)
    requires
        call_ensures(ProviderSearch::start, (config,), res),
        call_ensures(build_device_chain, (config,), chain),
        call_ensures(ProviderSearch::next, (&res,), next),
    ensures
        res.chain@ == chain@,
        next == Some(chain@[0]),
        !res.found && res.tried == 0,
        res.last_err == Error::NoProviderAvailable,
{
    law_build_device_chain(config, chain, Device::Cpu);
    assert(res.chain.len() == res.chain@.len());
}

/// Law: a search names the devices of its chain in turn, up to one that is built; the
/// outcome is that device, or the error of the last one that failed.
pub proof fn law_search_steps(
    search: ProviderSearch,
    next: Option<Device>,
    outcome: Result<Device, Error>,
)
    requires
        search.tried <= search.chain@.len(),
        search.found ==> search.tried < search.chain@.len(),
        call_ensures(ProviderSearch::next, (&search,), next),
        call_ensures(ProviderSearch::finish, (search,), outcome),
    ensures
        next == if !search.found && search.tried < search.chain@.len() {
            Some(search.chain@[search.tried as int])
        } else {
            None
        },
        search.found ==> outcome == Ok::<Device, Error>(search.chain@[search.tried as int]),
        !search.found ==> outcome == Err::<Device, Error>(search.last_err),
{
}

/// Law: a failure moves a search on by one device and is remembered; a success ends it
/// at the device at hand.
pub proof fn law_search_moves(failing: &mut ProviderSearch, err: Error, built: &mut ProviderSearch)
    requires
        old(failing).tried < old(failing).chain@.len(),
        call_ensures(ProviderSearch::failed, (failing, err), ()),
        call_ensures(ProviderSearch::built, (built,), ()),
    ensures
        final(failing).tried == old(failing).tried + 1,
        final(failing).last_err == err,
        final(failing).chain == old(failing).chain,
        final(failing).found == old(failing).found,
        final(built).found,
        final(built).tried == old(built).tried,
        final(built).chain == old(built).chain,
{
    assert(old(failing).chain.len() == old(failing).chain@.len());
}

/// Law: a plan ends with the CPU and starts with the device's own provider, set up as
/// configured; behind TensorRT comes CUDA on the same GPU, with its own choice of graph
/// capture; only TensorRT needs its cache directory; and a number of threads is passed
/// on unless it is 0.
pub proof fn law_session_plan(config: &EngineConfig, device: Device, res: SessionPlan)
    requires
        call_ensures(session_plan, (config, device), res),
    ensures
        ({
            let p = res.providers@;
            &&& p.len() == if device == Device::TensorRt {
                3int
            } else if device == Device::Cuda {
                2
            } else {
                1
            }
            &&& p.last() == Provider::Cpu
            &&& device == Device::Cuda ==> p[0] is Cuda && p[0]->Cuda_device_id
                == config.device_id && p[0]->graph_capture == Some(config.enable_cuda_graph)
            &&& device == Device::TensorRt ==> {
                &&& p[0] is TensorRt
                &&& p[0]->TensorRt_device_id == config.device_id
                &&& p[0]->fp16 <==> config.precision == Precision::Fp16
                &&& p[0]->cache_path@ == config.trt_cache_dir@
                &&& p[0]->builder_optimization_level == if config.trt_max_optimization {
                    5
                } else {
                    3int
                }
                &&& p[0]->max_workspace_size == config.trt_workspace_bytes
                &&& p[0]->cuda_graph == config.enable_cuda_graph
                &&& p[1] is Cuda && p[1]->Cuda_device_id == config.device_id
                    && p[1]->graph_capture is None
            }
            &&& res.create_dir is Some <==> device == Device::TensorRt
            &&& res.create_dir is Some ==> res.create_dir->0@ == config.trt_cache_dir@
            &&& res.intra_threads is Some <==> config.intra_op_threads > 0
            &&& res.intra_threads is Some ==> res.intra_threads->0 == config.intra_op_threads
            &&& res.inter_threads is Some <==> config.inter_op_threads > 0
            &&& res.inter_threads is Some ==> res.inter_threads->0 == config.inter_op_threads
        }),
{
}

} // verus!
