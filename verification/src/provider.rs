//! Which execution provider an engine ends up with, and how its session is built.

use crate::config::{Device, EngineConfig, Precision};
use crate::error::Error;
use vstd::prelude::*;

verus! {

/// The devices to try, best first.
pub open spec fn device_chain(device: Device, auto_fallback: bool) -> Seq<Device> {
    match device {
        Device::Auto => seq![Device::TensorRt, Device::Cuda, Device::Cpu],
        Device::TensorRt => if auto_fallback {
            seq![Device::TensorRt, Device::Cuda, Device::Cpu]
        } else {
            seq![Device::TensorRt]
        },
        Device::Cuda => if auto_fallback {
            seq![Device::Cuda, Device::Cpu]
        } else {
            seq![Device::Cuda]
        },
        Device::Cpu => seq![Device::Cpu],
    }
}

/// The devices that a configuration lets the engine try, best first.
pub fn build_device_chain(config: &EngineConfig) -> (res: Vec<Device>)
    ensures
        res@ == device_chain(config.device, config.auto_fallback),
{
    let mut chain: Vec<Device> = Vec::new();
    match config.device {
        Device::Auto => {
            chain.push(Device::TensorRt);
            chain.push(Device::Cuda);
            chain.push(Device::Cpu);
        },
        Device::TensorRt => {
            chain.push(Device::TensorRt);
            if config.auto_fallback {
                chain.push(Device::Cuda);
                chain.push(Device::Cpu);
            }
        },
        Device::Cuda => {
            chain.push(Device::Cuda);
            if config.auto_fallback {
                chain.push(Device::Cpu);
            }
        },
        Device::Cpu => {
            chain.push(Device::Cpu);
        },
    }
    assert(chain@ =~= device_chain(config.device, config.auto_fallback));
    chain
}

/// Precision that inference runs at on a device: a CPU knows only single precision.
pub open spec fn precision_on(device: Device, requested: Precision) -> Precision {
    match device {
        Device::Cpu => Precision::Fp32,
        Device::Auto => Precision::Fp32,
        _ => requested,
    }
}

/// Precision that inference runs at on a device.
pub fn active_precision(device: Device, requested: Precision) -> (res: Precision)
    ensures
        res == precision_on(device, requested),
{
    match device {
        Device::Cpu => Precision::Fp32,
        Device::Auto => Precision::Fp32,
        _ => requested,
    }
}

/// Whether an engine on this device keeps a page-locked input buffer.
pub fn wants_pinned_input(device: Device) -> (res: bool)
    ensures
        res == (device == Device::TensorRt || device == Device::Cuda),
{
    match device {
        Device::TensorRt => true,
        Device::Cuda => true,
        _ => false,
    }
}

/// A model file that does not exist cannot be loaded.
pub fn check_model_file(exists: bool, path: &String) -> (res: Result<(), Error>)
    ensures
        exists ==> res is Ok,
        !exists ==> (res matches Err(Error::ModelNotFound(p)) && p@ == path@),
{
    if exists {
        Ok(())
    } else {
        Err(Error::ModelNotFound(path.clone()))
    }
}

/// A search for the first device of a chain whose session can be built.
///
/// While [`ProviderSearch::next`] names a device, the caller tries to build a
/// session for it and reports with [`ProviderSearch::built`] or
/// [`ProviderSearch::failed`]; then [`ProviderSearch::finish`] tells the outcome.
pub struct ProviderSearch {
    pub chain: Vec<Device>,
    /// Devices of the chain that failed, all from its start.
    pub tried: usize,
    /// Whether the device behind those was built.
    pub found: bool,
    /// Error of the last device that failed.
    pub last_err: Error,
}

impl ProviderSearch {
    pub open spec fn wf(self) -> bool {
        &&& self.tried <= self.chain@.len()
        &&& self.found ==> self.tried < self.chain@.len()
    }

    /// Whether there is a device to try.
    pub open spec fn pending(self) -> bool {
        !self.found && self.tried < self.chain@.len()
    }

    /// Starts with all devices that the configuration allows.
    pub fn start(config: &EngineConfig) -> (res: ProviderSearch)
        ensures
            res.wf(),
            res.chain@ == device_chain(config.device, config.auto_fallback),
            res.tried == 0,
            !res.found,
            res.last_err == Error::NoProviderAvailable,
    {
        ProviderSearch {
            chain: build_device_chain(config),
            tried: 0,
            found: false,
            last_err: Error::NoProviderAvailable,
        }
    }

    /// The device to try next.
    pub fn next(&self) -> (res: Option<Device>)
        ensures
            res == (if self.pending() {
                Some(self.chain@[self.tried as int])
            } else {
                None
            }),
    {
        if !self.found && self.tried < self.chain.len() {
            Some(self.chain[self.tried])
        } else {
            None
        }
    }

    /// The session of the pending device was built.
    pub fn built(&mut self)
        requires
            old(self).wf(),
            old(self).pending(),
        ensures
            final(self).wf(),
            *final(self) == (ProviderSearch { found: true, ..*old(self) }),
    {
        self.found = true;
    }

    /// The session of the pending device could not be built.
    pub fn failed(&mut self, err: Error)
        requires
            old(self).wf(),
            old(self).pending(),
        ensures
            final(self).wf(),
            *final(self) == (ProviderSearch {
                tried: (old(self).tried + 1) as usize,
                last_err: err,
                ..*old(self)
            }),
    {
        assert(self.chain.len() == self.chain@.len());
        self.tried = self.tried + 1;
        self.last_err = err;
    }

    /// The device whose session was built, or the error of the last one tried.
    pub fn finish(self) -> (res: Result<Device, Error>)
        requires
            self.wf(),
        ensures
            res == self.outcome(),
    {
        if self.found {
            Ok(self.chain[self.tried])
        } else {
            Err(self.last_err)
        }
    }

    /// What [`ProviderSearch::finish`] tells.
    pub open spec fn outcome(self) -> Result<Device, Error> {
        if self.found {
            Ok(self.chain@[self.tried as int])
        } else {
            Err(self.last_err)
        }
    }

    /// The search after it was told the results of the devices one by one, `None`
    /// for a session that was built; results that come when no device is pending
    /// are not asked for.
    pub open spec fn told(self, results: Seq<Option<Error>>) -> ProviderSearch
        decreases results.len(),
    {
        if results.len() == 0 {
            self
        } else {
            let before = self.told(results.drop_last());
            if !before.pending() {
                before
            } else {
                match results.last() {
                    None => ProviderSearch { found: true, ..before },
                    Some(err) => ProviderSearch {
                        tried: (before.tried + 1) as usize,
                        last_err: err,
                        ..before
                    },
                }
            }
        }
    }
}

/// Law: a search that was told one result for every device of its chain ends with
/// the first device that was built; where none was, with the error of the last.
pub proof fn law_search_takes_the_first_that_builds(
    start: ProviderSearch,
    results: Seq<Option<Error>>,
    n: int,
)
    requires
        start.wf(),
        start.tried == 0,
        !start.found,
        0 <= n <= results.len() == start.chain@.len(),
        forall|i: int| 0 <= i < n ==> #[trigger] results[i] is Some,
        n < results.len() ==> results[n] is None,
    ensures
        ({
            let end = start.told(results);
            &&& end.wf()
            &&& end.chain == start.chain
            &&& n < results.len() ==> end.outcome() == Ok::<Device, Error>(start.chain@[n])
            &&& n == results.len() && n > 0 ==> end.outcome() == Err::<Device, Error>(
                results[n - 1]->0,
            )
            &&& n == results.len() && n == 0 ==> end.outcome() == Err::<Device, Error>(start.last_err)
        }),
{
    lemma_told_prefix(start, results, n, results.len() as int);
    assert(results.take(results.len() as int) =~= results);
}

proof fn lemma_told_prefix(
    start: ProviderSearch,
    results: Seq<Option<Error>>,
    n: int,
    m: int,
)
    requires
        start.wf(),
        start.tried == 0,
        !start.found,
        0 <= n <= results.len() == start.chain@.len(),
        0 <= m <= results.len(),
        forall|i: int| 0 <= i < n ==> #[trigger] results[i] is Some,
        n < results.len() ==> results[n] is None,
    ensures
        ({
            let state = start.told(results.take(m));
            let tried = if m <= n {
                m
            } else {
                n
            };
            &&& state.chain == start.chain
            &&& state.tried == tried
            &&& state.found == (m > n)
            &&& state.last_err == (if tried == 0 {
                start.last_err
            } else {
                results[tried - 1]->0
            })
        }),
    decreases m,
{
    if m > 0 {
        lemma_told_prefix(start, results, n, m - 1);
        assert(results.take(m).drop_last() =~= results.take(m - 1));
        assert(results.take(m).last() == results[m - 1]);
        assert(start.chain.len() == start.chain@.len());
    }
}

/// How strong a device is.
pub open spec fn strength(device: Device) -> int {
    match device {
        Device::Auto => 0,
        Device::Cpu => 1,
        Device::Cuda => 2,
        Device::TensorRt => 3,
    }
}

/// Law: a chain starts with the requested device, or the strongest for an open
/// request, and only ever falls back to a weaker one; it never asks for an open
/// device; and where fallback is allowed or the request is open it ends at the
/// CPU.
pub proof fn law_chain_only_weakens(device: Device, auto_fallback: bool)
    ensures
        ({
            let chain = device_chain(device, auto_fallback);
            &&& chain.len() > 0
            &&& chain[0] == (if device == Device::Auto {
                Device::TensorRt
            } else {
                device
            })
            &&& forall|i: int| 0 <= i < chain.len() ==> #[trigger] chain[i] != Device::Auto
            &&& forall|i: int, j: int|
                0 <= i < j < chain.len() ==> strength(chain[i]) > strength(chain[j])
            &&& auto_fallback || device == Device::Auto ==> chain.last() == Device::Cpu
            &&& !auto_fallback && device != Device::Auto ==> chain.len() == 1
        }),
{
}

/// An execution provider of a session, with its options.
#[derive(Clone, Debug)]
pub enum Provider {
    TensorRt {
        device_id: i32,
        fp16: bool,
        /// Directory of the engine cache and of the timing cache.
        cache_path: String,
        builder_optimization_level: u8,
        max_workspace_size: u64,
        cuda_graph: bool,
    },
    Cuda {
        device_id: i32,
        /// Capture of CUDA graphs; `None` leaves the provider's own choice.
        graph_capture: Option<bool>,
    },
    Cpu,
}

/// How to build a session.
#[derive(Clone, Debug)]
pub struct SessionPlan {
    /// A directory that has to exist first.
    pub create_dir: Option<String>,
    /// The providers, in order of preference.
    pub providers: Vec<Provider>,
    /// `None` leaves the runtime's own choice.
    pub intra_threads: Option<usize>,
    pub inter_threads: Option<usize>,
}

/// A number of threads, where 0 stands for the runtime's own choice.
pub open spec fn threads_or_default(n: usize) -> Option<usize> {
    if n > 0 {
        Some(n)
    } else {
        None
    }
}

/// `p` is the TensorRT provider of a configuration.
pub open spec fn is_tensorrt_of(p: Provider, config: EngineConfig) -> bool {
    &&& p matches Provider::TensorRt {
        device_id,
        fp16,
        cache_path,
        builder_optimization_level,
        max_workspace_size,
        cuda_graph,
    }
    &&& device_id == config.device_id
    &&& fp16 == (config.precision == Precision::Fp16)
    &&& cache_path@ == config.trt_cache_dir@
    &&& builder_optimization_level == (if config.trt_max_optimization {
        5u8
    } else {
        3u8
    })
    &&& max_workspace_size == config.trt_workspace_bytes
    &&& cuda_graph == config.enable_cuda_graph
}

/// `plan` builds a session for `device`: the device itself, then whatever can run
/// what it cannot, down to the CPU.
pub open spec fn plans(plan: SessionPlan, config: EngineConfig, device: Device) -> bool {
    &&& plan.intra_threads == threads_or_default(config.intra_op_threads)
    &&& plan.inter_threads == threads_or_default(config.inter_op_threads)
    &&& match device {
        Device::TensorRt => {
            &&& plan.create_dir matches Some(dir) && dir@ == config.trt_cache_dir@
            &&& plan.providers@.len() == 3
            &&& is_tensorrt_of(plan.providers@[0], config)
            &&& plan.providers@[1] == (Provider::Cuda {
                device_id: config.device_id,
                graph_capture: None,
            })
            &&& plan.providers@[2] == Provider::Cpu
        },
        Device::Cuda => {
            &&& plan.create_dir is None
            &&& plan.providers@ == seq![
                Provider::Cuda {
                    device_id: config.device_id,
                    graph_capture: Some(config.enable_cuda_graph),
                },
                Provider::Cpu,
            ]
        },
        _ => {
            &&& plan.create_dir is None
            &&& plan.providers@ == seq![Provider::Cpu]
        },
    }
}

fn threads(n: usize) -> (res: Option<usize>)
    ensures
        res == threads_or_default(n),
{
    if n > 0 {
        Some(n)
    } else {
        None
    }
}

/// How to build a session for `device`.
pub fn session_plan(config: &EngineConfig, device: Device) -> (res: SessionPlan)
    ensures
        plans(res, *config, device),
{
    let mut create_dir: Option<String> = None;
    let mut providers: Vec<Provider> = Vec::new();
    match device {
        Device::TensorRt => {
            create_dir = Some(config.trt_cache_dir.clone());
            providers.push(
                Provider::TensorRt {
                    device_id: config.device_id,
                    fp16: config.precision == Precision::Fp16,
                    cache_path: config.trt_cache_dir.clone(),
                    builder_optimization_level: if config.trt_max_optimization {
                        5
                    } else {
                        3
                    },
                    max_workspace_size: config.trt_workspace_bytes,
                    cuda_graph: config.enable_cuda_graph,
                },
            );
            providers.push(Provider::Cuda { device_id: config.device_id, graph_capture: None });
        },
        Device::Cuda => {
            providers.push(
                Provider::Cuda {
                    device_id: config.device_id,
                    graph_capture: Some(config.enable_cuda_graph),
                },
            );
        },
        _ => {},
    }
    providers.push(Provider::Cpu);
    proof {
        if device == Device::Cuda {
            assert(providers@ =~= seq![
                Provider::Cuda {
                    device_id: config.device_id,
                    graph_capture: Some(config.enable_cuda_graph),
                },
                Provider::Cpu,
            ]);
        } else if device != Device::TensorRt {
            assert(providers@ =~= seq![Provider::Cpu]);
        }
    }
    SessionPlan {
        create_dir,
        providers,
        intra_threads: threads(config.intra_op_threads),
        inter_threads: threads(config.inter_op_threads),
    }
}

} // verus!
