# rfdetr_ort

Object detection with RF-DETR models on ONNX Runtime. The library is everything
around the model itself, written in Verus and proved: what an image becomes before
the model reads it, what the raw outputs of the model mean, and the decisions of the
engine in between. The model is run by the application.

## Layout

- `src/` is the verified library.
  - `source_image`, `resize`, `preprocess`, `nv12`: images and frames to planes
  - `postprocess`: boxes and logits to detections
  - `engine`, `model`, `config`, `provider`: an engine, its model, and the execution
    provider that it ends up with
  - `pipeline`: frames that are queued and answered in order
  - `annotate`, `classes`, `video`, `stats`, `text`: what the command line tool needs
  - `float_bits`: floating-point numbers as bit patterns, ordered but not computed with
- `tests/` runs the library.
- `app/` is the command line tool: sessions, threads, files, floating-point
  arithmetic, and the terminal.

## What is trusted

Three functions of the library call other crates, and their contracts are believed:
`resize::resize_u8x3` (`fast_image_resize`), and `convert_u8` and `convert_u16` of
`source_image` (`image`). Each says above its header what it claims.

## Command line

```sh
rfdetr --mode image     --model model.onnx --input photo.jpg --output out.jpg
rfdetr --mode benchmark --model model.onnx --input photo.jpg --device tensorrt --precision fp16
rfdetr --mode video     --model model.onnx --input video.mp4 --output out.mp4
```
