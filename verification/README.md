# denoiser

Noise removal for scanned text pictures, written in Verus: columns with few dark pixels are
wiped, specks are removed, white lines are ruled across a picture before a line detector
searches it, and the text of the result is read.

- `src/` is the verified library. `plane.rs` holds the model of a picture, `picture.rs` and
  `morphology.rs` are the boundaries to the `image` and `imageproc` crates, `density.rs`,
  `block_sums.rs`, `captcha.rs`, `white_lines.rs`, `lines.rs` and `utils.rs` are the stages of
  the pipeline, and `denoiser_params.rs`, `denoiser_app.rs` and `ocr_wrapper.rs` are the state
  around it. `density_laws.rs`, `cleaning_laws.rs`, `worker_laws.rs` and `laws.rs` state what
  holds of them together.
- `app/` is the viewer: the window, the files, the threads and the calls into OpenCV.
- `tests/` runs the library on concrete pictures.

What is not proved stands in the functions marked `external_body`, each of which calls one
function of an outside crate or of the standard library and says in its comment what is
believed of it. Where an outside result depends on the machine, a predicate such as
`load_outcome` says which results may come back, and the contracts hold for every one of them.
