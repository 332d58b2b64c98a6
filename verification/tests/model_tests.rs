use rfdetr_ort::error::Error;
use rfdetr_ort::model::{resolve_model_info, Port, PortKind};

fn tensor(name: &str, shape: &[i64]) -> Port {
    Port { name: name.to_owned(), kind: PortKind::Tensor { shape: shape.to_vec() } }
}

fn other(name: &str) -> Port {
    Port { name: name.to_owned(), kind: PortKind::Other }
}

fn defect(inputs: Vec<Port>, outputs: Vec<Port>) -> String {
    resolve_model_info(&inputs, &outputs, 1).unwrap_err().message()
}

#[test]
fn declared_shapes_are_taken() {
    let info = resolve_model_info(
        &vec![tensor("pixels", &[1, 1, 480, 640])],
        &vec![tensor("b", &[1, 100, 4]), tensor("l", &[1, 100, 7]), other("x")],
        5,
    )
    .unwrap();
    assert_eq!((info.input_channels, info.input_height, info.input_width), (1, 480, 640));
    assert_eq!((info.num_queries, info.num_classes, info.max_batch), (100, 7, 5));
    assert_eq!(info.input_name, "pixels");
    assert_eq!(info.output_names, vec!["b", "l", "x"]);
}

#[test]
fn open_dimensions_get_defaults() {
    let info = resolve_model_info(
        &vec![tensor("in", &[-1, -1, 0, -1])],
        &vec![tensor("b", &[-1]), other("l")],
        1,
    )
    .unwrap();
    assert_eq!((info.input_channels, info.input_height, info.input_width), (3, 384, 384));
    assert_eq!((info.num_queries, info.num_classes), (300, 91));
}

#[test]
fn unusable_models_are_refused() {
    let outs = || vec![tensor("b", &[1, 2, 4]), tensor("l", &[1, 2, 3])];
    assert_eq!(defect(vec![], outs()), "Invalid model: Model has no inputs");
    assert_eq!(defect(vec![other("in")], outs()), "Invalid model: Expected tensor input");
    assert_eq!(
        defect(vec![tensor("in", &[1; 12])], outs()),
        "Invalid model: Expected 4-D NCHW input, got 12-D"
    );
    assert_eq!(
        defect(vec![tensor("in", &[1, 3, 2, 2])], vec![other("b")]),
        "Invalid model: Expected at least 2 outputs (pred_boxes, pred_logits), found 1"
    );
    assert_eq!(
        defect(vec![tensor("in", &[1, 3])], vec![]),
        "Invalid model: Expected 4-D NCHW input, got 2-D"
    );
}

#[test]
fn every_error_has_its_text() {
    let s = || "why".to_owned();
    assert_eq!(Error::Ort(s()).message(), "ORT error: why");
    assert_eq!(Error::Io(s()).message(), "I/O error: why");
    assert_eq!(Error::Image(s()).message(), "Image error: why");
    assert_eq!(Error::ModelNotFound(s()).message(), "Model file not found: why");
    assert_eq!(Error::InvalidModel(s()).message(), "Invalid model: why");
    assert_eq!(
        Error::BatchTooLarge { requested: 1024, max: 0 }.message(),
        "Batch too large: requested 1024, max 0"
    );
    assert_eq!(
        Error::NoProviderAvailable.message(),
        "All execution providers failed to initialize"
    );
    assert_eq!(Error::SessionBuild(s()).message(), "Session build error: why");
    assert_eq!(Error::PipelineStopped.message(), "Pipeline stopped");
}
