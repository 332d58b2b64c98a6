use rfdetr_ort::config::{Device, EngineConfig, Precision};
use rfdetr_ort::error::Error;
use rfdetr_ort::provider::{
    active_precision, build_device_chain, check_model_file, session_plan, wants_pinned_input,
    Provider, ProviderSearch,
};

fn config(device: Device, auto_fallback: bool) -> EngineConfig {
    EngineConfig { device, auto_fallback, ..EngineConfig::default() }
}

#[test]
fn default_configuration() {
    let c = EngineConfig::default();
    assert_eq!(c.model_path, "");
    assert_eq!(c.device, Device::Auto);
    assert_eq!(c.precision, Precision::Fp16);
    assert_eq!(c.device_id, 0);
    assert!(!c.enable_cuda_graph);
    assert_eq!(c.trt_workspace_bytes, 4 * 1024 * 1024 * 1024);
    assert_eq!(c.trt_cache_dir, "trt_cache");
    assert_eq!((c.max_batch_size, c.intra_op_threads, c.inter_op_threads), (1, 0, 0));
    let mean: Vec<f32> = c.mean.iter().map(|v| f32::from_bits(v.bits)).collect();
    let std: Vec<f32> = c.std.iter().map(|v| f32::from_bits(v.bits)).collect();
    assert_eq!(mean, vec![0.485, 0.456, 0.406]);
    assert_eq!(std, vec![0.229, 0.224, 0.225]);
    assert!(c.auto_fallback && c.trt_max_optimization);
}

#[test]
fn chains_go_from_strong_to_weak() {
    let all = vec![Device::TensorRt, Device::Cuda, Device::Cpu];
    assert_eq!(build_device_chain(&config(Device::Auto, true)), all);
    assert_eq!(build_device_chain(&config(Device::Auto, false)), all);
    assert_eq!(build_device_chain(&config(Device::TensorRt, true)), all);
    assert_eq!(build_device_chain(&config(Device::TensorRt, false)), vec![Device::TensorRt]);
    assert_eq!(build_device_chain(&config(Device::Cuda, true)), vec![Device::Cuda, Device::Cpu]);
    assert_eq!(build_device_chain(&config(Device::Cuda, false)), vec![Device::Cuda]);
    assert_eq!(build_device_chain(&config(Device::Cpu, true)), vec![Device::Cpu]);
}

#[test]
fn a_search_takes_the_first_device_that_builds() {
    let mut search = ProviderSearch::start(&config(Device::Auto, true));
    assert_eq!(search.next(), Some(Device::TensorRt));
    search.failed(Error::SessionBuild("no tensorrt".to_owned()));
    assert_eq!(search.next(), Some(Device::Cuda));
    search.built();
    assert_eq!(search.next(), None);
    assert_eq!(search.finish().unwrap(), Device::Cuda);
}

#[test]
fn a_search_that_fails_reports_the_last_error() {
    let mut search = ProviderSearch::start(&config(Device::Cuda, true));
    search.failed(Error::SessionBuild("first".to_owned()));
    search.failed(Error::Ort("second".to_owned()));
    assert_eq!(search.next(), None);
    assert_eq!(search.finish().unwrap_err().message(), "ORT error: second");
}

#[test]
fn a_search_that_tried_nothing_has_no_provider() {
    let search = ProviderSearch::start(&config(Device::Cpu, true));
    assert!(matches!(search.finish(), Err(Error::NoProviderAvailable)));
}

#[test]
fn precision_is_single_on_a_cpu() {
    assert_eq!(active_precision(Device::Cpu, Precision::Fp16), Precision::Fp32);
    assert_eq!(active_precision(Device::Auto, Precision::Fp16), Precision::Fp32);
    assert_eq!(active_precision(Device::Cuda, Precision::Fp16), Precision::Fp16);
    assert_eq!(active_precision(Device::TensorRt, Precision::Fp32), Precision::Fp32);
    assert!(wants_pinned_input(Device::Cuda) && wants_pinned_input(Device::TensorRt));
    assert!(!wants_pinned_input(Device::Cpu) && !wants_pinned_input(Device::Auto));
}

#[test]
fn a_missing_model_file_is_an_error() {
    let path = "nowhere.onnx".to_owned();
    assert!(check_model_file(true, &path).is_ok());
    let err = check_model_file(false, &path).unwrap_err();
    assert_eq!(err.message(), "Model file not found: nowhere.onnx");
}

#[test]
fn tensorrt_sessions_fall_back_within() {
    let mut c = config(Device::TensorRt, true);
    c.device_id = 2;
    c.enable_cuda_graph = true;
    c.intra_op_threads = 4;
    let plan = session_plan(&c, Device::TensorRt);
    assert_eq!(plan.create_dir.as_deref(), Some("trt_cache"));
    assert_eq!((plan.intra_threads, plan.inter_threads), (Some(4), None));
    assert_eq!(plan.providers.len(), 3);
    assert!(matches!(
        &plan.providers[0],
        Provider::TensorRt {
            device_id: 2,
            fp16: true,
            cache_path,
            builder_optimization_level: 5,
            max_workspace_size: 4294967296,
            cuda_graph: true,
        } if cache_path == "trt_cache"
    ));
    assert!(matches!(plan.providers[1], Provider::Cuda { device_id: 2, graph_capture: None }));
    assert!(matches!(plan.providers[2], Provider::Cpu));
    c.trt_max_optimization = false;
    c.precision = Precision::Fp32;
    assert!(matches!(
        session_plan(&c, Device::TensorRt).providers[0],
        Provider::TensorRt { builder_optimization_level: 3, fp16: false, .. }
    ));
}

#[test]
fn other_sessions() {
    let c = config(Device::Cuda, true);
    let plan = session_plan(&c, Device::Cuda);
    assert!(plan.create_dir.is_none());
    assert_eq!(plan.providers.len(), 2);
    assert!(matches!(
        plan.providers[0],
        Provider::Cuda { device_id: 0, graph_capture: Some(false) }
    ));
    let plan = session_plan(&c, Device::Cpu);
    assert_eq!(plan.providers.len(), 1);
    assert!(matches!(plan.providers[0], Provider::Cpu));
}
