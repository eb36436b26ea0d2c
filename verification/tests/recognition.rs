//! Runs the recognition engine on two models of a single idea: the detector marks what is
//! bright in some channel, and the recogniser reads the letter "a" where green is strongest.

use denoiser::ocr_wrapper::{OcrFailure, OcrWrapper};
use image::{DynamicImage, ImageFormat, Rgb, RgbImage};
use pure_onnx_ocr::{OcrEngine, OcrEngineBuilder};
use std::io::Cursor;

fn varint(mut value: u64) -> Vec<u8> {
    let mut out = Vec::new();
    while value >= 0x80 {
        out.push((value as u8) | 0x80);
        value >>= 7;
    }
    out.push(value as u8);
    out
}

fn number(field: u64, value: u64) -> Vec<u8> {
    [varint(field << 3), varint(value)].concat()
}

fn bytes(field: u64, value: &[u8]) -> Vec<u8> {
    [varint(field << 3 | 2), varint(value.len() as u64), value.to_vec()].concat()
}

fn text(field: u64, value: &str) -> Vec<u8> {
    bytes(field, value.as_bytes())
}

fn value_info(name: &str, dims: &[&str]) -> Vec<u8> {
    let shape: Vec<u8> = dims.iter().flat_map(|dim| bytes(1, &text(2, dim))).collect();
    let tensor = [number(1, 1), bytes(2, &shape)].concat();
    [text(1, name), bytes(2, &bytes(1, &tensor))].concat()
}

fn int_attribute(name: &str, value: u64) -> Vec<u8> {
    bytes(5, &[text(1, name), number(3, value), number(20, 2)].concat())
}

fn ints_attribute(name: &str, values: &[u64]) -> Vec<u8> {
    let list: Vec<u8> = values.iter().flat_map(|v| number(8, *v)).collect();
    bytes(5, &[text(1, name), list, number(20, 7)].concat())
}

fn node(op: &str, input: &str, output: &str, attributes: &[Vec<u8>]) -> Vec<u8> {
    let head = [text(1, input), text(2, output), text(3, output), text(4, op)].concat();
    bytes(1, &[head, attributes.concat()].concat())
}

fn model(nodes: &[Vec<u8>], output: &str, output_dims: &[&str]) -> Vec<u8> {
    let graph = [
        nodes.concat(),
        text(2, "graph"),
        bytes(11, &value_info("x", &["n", "c", "h", "w"])),
        bytes(12, &value_info(output, output_dims)),
    ]
    .concat();
    [number(1, 8), bytes(7, &graph), bytes(8, &[text(1, ""), number(2, 13)].concat())].concat()
}

fn engine() -> OcrEngine {
    let detector = model(
        &[node("ReduceMax", "x", "score", &[ints_attribute("axes", &[1]), int_attribute("keepdims", 1)])],
        "score",
        &["n", "d", "h", "w"],
    );
    let recogniser = model(
        &[
            node("ReduceMax", "x", "flat", &[ints_attribute("axes", &[2]), int_attribute("keepdims", 0)]),
            node("Transpose", "flat", "classes", &[ints_attribute("perm", &[0, 2, 1])]),
        ],
        "classes",
        &["n", "t", "k"],
    );
    OcrEngineBuilder::new()
        .det_model_bytes(detector)
        .rec_model_bytes(recogniser)
        .dictionary_text("a\n")
        .det_limit_side_len(960)
        .rec_batch_size(8)
        .build()
        .unwrap()
}

fn with_blocks(blocks: &[(u32, u32)]) -> Vec<u8> {
    let mut image = RgbImage::from_pixel(320, 192, Rgb([0, 0, 0]));
    for (left, top) in blocks {
        for y in 0..30 {
            for x in 0..80 {
                image.put_pixel(left + x, top + y, Rgb([0, 255, 0]));
            }
        }
    }
    let mut file = Cursor::new(Vec::new());
    DynamicImage::ImageRgb8(image).write_to(&mut file, ImageFormat::Png).unwrap();
    file.into_inner()
}

#[test]
fn the_engine_reads_every_region() {
    let wrapper = OcrWrapper { engine: engine() };
    assert_eq!(wrapper.ocr(&with_blocks(&[])), Ok("".to_string()));
    assert_eq!(wrapper.ocr(&with_blocks(&[(60, 60)])), Ok("a".to_string()));
    assert_eq!(wrapper.ocr(&with_blocks(&[(60, 20), (60, 120)])), Ok("a\na".to_string()));
}

#[test]
fn the_engine_is_not_asked_without_a_picture() {
    let wrapper = OcrWrapper { engine: engine() };
    assert_eq!(wrapper.ocr(b"no picture"), Err(OcrFailure::Undecodable));
}

#[test]
fn an_engine_that_fails() {
    let broken = model(
        &[node("ReduceMax", "x", "score", &[ints_attribute("axes", &[1]), int_attribute("keepdims", 0)])],
        "score",
        &["n", "h", "w"],
    );
    let engine = OcrEngineBuilder::new()
        .det_model_bytes(broken.clone())
        .rec_model_bytes(broken)
        .dictionary_text("a\n")
        .build()
        .unwrap();
    assert_eq!(OcrWrapper { engine }.ocr(&with_blocks(&[])), Err(OcrFailure::Engine));
}
