//! Noise removal for scanned text pictures: density analysis, line erasure and the state
//! that a viewer keeps around it.

pub mod block_sums;
pub mod captcha;
pub mod cleaning_laws;
pub mod denoiser_app;
pub mod denoiser_params;
pub mod density;
pub mod density_laws;
pub mod error;
pub mod laws;
pub mod lines;
pub mod morphology;
pub mod ocr_wrapper;
pub mod picture;
pub mod plane;
pub mod ruling_laws;
pub mod state_laws;
pub mod text_laws;
pub mod utils;
pub mod white_lines;
pub mod worker_laws;
