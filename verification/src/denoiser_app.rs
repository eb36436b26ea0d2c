//! The state behind the viewer and the course of one run of the pipeline.

use std::collections::VecDeque;

use vstd::prelude::*;

use crate::denoiser_params::DenoiserParams;
use crate::error::DenoiseError;
use crate::lines::fixed_aperture;
use crate::ocr_wrapper::OcrWorker;
use crate::utils::ColorImage;
#[allow(unused_imports)]
use crate::lines::odd_aperture;
#[allow(unused_imports)]
use crate::ocr_wrapper::{front, WorkerState};
#[allow(unused_imports)]
use crate::picture::{
    can_expand, encodes, expands_to, load_outcome, loads_as, rgba_picture, Picture,
};
#[allow(unused_imports)]
use crate::plane::Grid;
#[allow(unused_imports)]
use crate::white_lines::{can_rule, resize_outcome, ruled};

verus! {

/// The window into which a picture is scaled.
pub const WINDOW_WIDTH: u32 = 400;

pub const WINDOW_HEIGHT: u32 = 200;

/// What waits to be shown, what was found last, the settings, and the worker that reads text.
pub struct DenoiserApp {
    /// Scaled pictures.
    pub orig: VecDeque<Vec<u8>>,
    /// Pictures without their lines.
    pub denoised: VecDeque<Vec<u8>>,
    /// Pictures with white lines across them.
    pub density: VecDeque<Vec<u8>>,
    /// Pictures of the lines that were found.
    pub lines: VecDeque<ColorImage>,
    pub params: DenoiserParams,
    pub ocr_worker: OcrWorker,
    /// The picture without its lines that was found last.
    pub result_holder: Option<Vec<u8>>,
}

/// The model of the state, apart from the settings.
#[verifier::ext_equal]
pub ghost struct AppState {
    pub orig: Seq<Seq<u8>>,
    pub denoised: Seq<Seq<u8>>,
    pub density: Seq<Seq<u8>>,
    pub lines: Seq<ColorImage>,
    pub result: Option<Seq<u8>>,
    pub worker: WorkerState,
}

/// What some files hold.
pub open spec fn files(queue: Seq<Vec<u8>>) -> Seq<Seq<u8>> {
    queue.map_values(|file: Vec<u8>| file@)
}

/// A queue without its first value, if it has one.
pub open spec fn advanced<T>(queue: Seq<T>) -> Seq<T> {
    if queue.len() == 0 {
        queue
    } else {
        queue.drop_first()
    }
}

impl AppState {
    /// Nothing to show, nothing found, and a worker at the start.
    pub open spec fn initial() -> AppState {
        AppState {
            orig: Seq::empty(),
            denoised: Seq::empty(),
            density: Seq::empty(),
            lines: Seq::empty(),
            result: None,
            worker: WorkerState::initial(),
        }
    }

    /// A scaled picture is ready.
    pub open spec fn scaled(self, file: Seq<u8>) -> AppState {
        AppState { orig: self.orig.push(file), ..self }
    }

    /// A run has ended: the picture of the lines, the picture without them, and the picture
    /// in which they were looked for are ready, and the second is kept.
    pub open spec fn delivered(
        self,
        mask: ColorImage,
        inpainted: Seq<u8>,
        ruled: Seq<u8>,
    ) -> AppState {
        AppState {
            lines: self.lines.push(mask),
            denoised: self.denoised.push(inpainted),
            density: self.density.push(ruled),
            result: Some(inpainted),
            ..self
        }
    }

    /// One value of each kind was shown, where any waited.
    pub open spec fn shown(self) -> AppState {
        AppState {
            orig: advanced(self.orig),
            denoised: advanced(self.denoised),
            density: advanced(self.density),
            lines: advanced(self.lines),
            ..self
        }
    }

    /// The text of the picture that was found last is asked for, if there is one.
    pub open spec fn asked_for_text(self) -> AppState {
        match self.result {
            Some(file) => AppState { worker: self.worker.submitted(file), ..self },
            None => self,
        }
    }
}

impl View for DenoiserApp {
    type V = AppState;

    open spec fn view(&self) -> AppState {
        AppState {
            orig: files(self.orig@),
            denoised: files(self.denoised@),
            density: files(self.density@),
            lines: self.lines@,
            result: match self.result_holder {
                Some(file) => Some(file@),
                None => None,
            },
            worker: self.ocr_worker@,
        }
    }
}

/// What is to be shown now: at most one value of each kind.
pub struct Frame {
    pub orig: Option<Vec<u8>>,
    pub denoised: Option<Vec<u8>>,
    pub density: Option<Vec<u8>>,
    pub lines: Option<ColorImage>,
}

/// What a file holds, if there is one.
pub open spec fn file_of(file: Option<Vec<u8>>) -> Option<Seq<u8>> {
    match file {
        Some(file) => Some(file@),
        None => None,
    }
}

/// Takes the file that has waited longest.
fn pop_file(queue: &mut VecDeque<Vec<u8>>) -> (file: Option<Vec<u8>>)
    ensures
        files(final(queue)@) == advanced(files(old(queue)@)),
        file_of(file) == front(files(old(queue)@)),
{
    let ghost before = queue@;
    let file = queue.pop_front();
    proof {
        if file is Some {
            assert(files(queue@) =~= files(before).drop_first());
        }
    }
    file
}

/// Lets a file wait behind the others.
fn push_file(queue: &mut VecDeque<Vec<u8>>, file: Vec<u8>)
    ensures
        files(final(queue)@) == files(old(queue)@).push(file@),
{
    let ghost before = queue@;
    queue.push_back(file);
    proof {
        assert(files(queue@) =~= files(before).push(file@));
    }
}

impl Default for DenoiserApp {
    fn default() -> (app: Self)
        ensures
            app@ == AppState::initial(),
            app.params.initial(Seq::empty()),
    {
        let app = DenoiserApp {
            orig: VecDeque::new(),
            denoised: VecDeque::new(),
            density: VecDeque::new(),
            lines: VecDeque::new(),
            params: DenoiserParams::default(),
            ocr_worker: OcrWorker::new(),
            result_holder: None,
        };
        proof {
            assert(files(app.orig@) =~= Seq::empty());
            assert(files(app.denoised@) =~= Seq::empty());
            assert(files(app.density@) =~= Seq::empty());
        }
        app
    }
}

/// One run of the pipeline, with the settings as they were at its start.
pub struct DenoiseTask {
    pub params: DenoiserParams,
}

/// What the line detector is asked: the picture to search, and the settings that are whole
/// numbers or switches.
pub struct LineRequest {
    pub png: Vec<u8>,
    pub line_threshold: i32,
    pub aperture: i32,
    pub l2_gradient: bool,
}

impl DenoiserApp {
    /// The state at the start, for the picture file `file_path`.
    pub fn new(file_path: String) -> (app: Self)
        ensures
            app@ == AppState::initial(),
            app.params.initial(file_path@),
    {
        let mut app = DenoiserApp::default();
        app.params.path = file_path;
        app
    }

    /// Starts a run of the pipeline with the present settings.
    pub fn denoise(&self) -> (task: DenoiseTask)
        ensures
            task.params == self.params,
    {
        DenoiseTask { params: self.params.clone() }
    }

    /// Lets a scaled picture wait to be shown.
    pub fn show_original(&mut self, file: Vec<u8>)
        ensures
            final(self)@ == old(self)@.scaled(file@),
            final(self).params == old(self).params,
    {
        push_file(&mut self.orig, file);
    }

    /// Ends a run: the picture of the lines, the picture without them and the picture in
    /// which they were looked for wait to be shown, and the second is kept for reading.
    pub fn deliver(&mut self, mask: ColorImage, inpainted: Vec<u8>, ruled: Vec<u8>)
        ensures
            final(self)@ == old(self)@.delivered(mask, inpainted@, ruled@),
            final(self).params == old(self).params,
    {
        self.lines.push_back(mask);
        let kept = inpainted.clone();
        assert(kept@ =~= inpainted@);
        push_file(&mut self.denoised, inpainted);
        self.result_holder = Some(kept);
        push_file(&mut self.density, ruled);
    }

    /// Takes what is to be shown next: of each kind the value that has waited longest.
    pub fn poll(&mut self) -> (frame: Frame)
        ensures
            final(self)@ == old(self)@.shown(),
            final(self).params == old(self).params,
            file_of(frame.orig) == front(old(self)@.orig),
            file_of(frame.denoised) == front(old(self)@.denoised),
            file_of(frame.density) == front(old(self)@.density),
            frame.lines == front(old(self)@.lines),
    {
        let ghost before = self@;
        let orig = pop_file(&mut self.orig);
        let density = pop_file(&mut self.density);
        let lines = self.lines.pop_front();
        let denoised = pop_file(&mut self.denoised);
        proof {
            assert(self@.lines =~= advanced(before.lines));
        }
        Frame { orig, denoised, density, lines }
    }

    /// Asks for the text of the picture that was found last. Nothing happens before the end
    /// of the first run.
    pub fn ocr(&mut self)
        requires
            old(self).result_holder is Some ==> old(self).ocr_worker.running,
        ensures
            final(self)@ == old(self)@.asked_for_text(),
            final(self).params == old(self).params,
    {
        match &self.result_holder {
            Some(file) => {
                let bytes: Vec<u8> = file.clone();
                assert(bytes@ =~= file@);
                self.ocr_worker.submit(bytes);
            },
            None => {},
        }
    }
}

/// The picture that lines are looked for in: `grid` with the white lines of the settings
/// across it.
pub open spec fn searched(grid: Grid<[u8; 4]>, params: DenoiserParams) -> Picture {
    rgba_picture(
        ruled(grid, params.hl_thickness, params.hl_step, params.vl_thickness, params.vl_step),
    )
}

/// A picture of this size can be ruled with the settings.
pub open spec fn can_search(width: nat, height: nat, params: DenoiserParams) -> bool {
    &&& can_expand(width, height)
    &&& can_rule(
        width,
        height,
        params.hl_thickness,
        params.hl_step,
        params.vl_thickness,
        params.vl_step,
    )
}

/// A request to look for lines in `grid`, with the settings.
pub open spec fn requests(request: LineRequest, grid: Grid<[u8; 4]>, params: DenoiserParams) -> bool {
    &&& encodes(request.png@, searched(grid, params))
    &&& request.line_threshold == params.line_threshold
    &&& request.aperture == odd_aperture(params.aperture as int)
    &&& request.l2_gradient == params.l2_gradient
}

/// What preparing the search for lines in a file may come to.
pub open spec fn preparing_outcome(
    bytes: Seq<u8>,
    params: DenoiserParams,
    outcome: Result<LineRequest, DenoiseError>,
) -> bool {
    match outcome {
        Ok(request) => exists|picture: Picture, grid: Grid<[u8; 4]>|
            {
                &&& #[trigger] loads_as(bytes, picture)
                &&& #[trigger] expands_to(picture, grid)
                &&& picture.nonempty()
                &&& can_search(picture.width, picture.height, params)
                &&& requests(request, grid, params)
            },
        Err(DenoiseError::Undecodable) => load_outcome(bytes, None),
        Err(DenoiseError::Geometry) => exists|picture: Picture| #[trigger]
            loads_as(bytes, picture) && !can_search(picture.width, picture.height, params),
        Err(DenoiseError::Unencodable) => exists|picture: Picture| #[trigger]
            loads_as(bytes, picture) && can_search(picture.width, picture.height, params)
                && !picture.nonempty(),
    }
}

/// What scaling a file into the window may come to.
pub open spec fn scaling_outcome(
    bytes: Seq<u8>,
    outcome: Result<Vec<u8>, DenoiseError>,
) -> bool {
    resize_outcome(bytes, WINDOW_WIDTH, WINDOW_HEIGHT, outcome)
}

impl DenoiseTask {
    /// Scales the picture file into the window.
    pub fn scale(&self, bytes: &[u8]) -> (outcome: Result<Vec<u8>, DenoiseError>)
        ensures
            scaling_outcome(bytes@, outcome),
            resize_outcome(bytes@, WINDOW_WIDTH, WINDOW_HEIGHT, outcome),
    {
        DenoiserApp::resize(bytes, WINDOW_WIDTH, WINDOW_HEIGHT)
    }

    /// Prepares the search for lines in a scaled picture: white lines are ruled across it,
    /// and the aperture is made odd.
    pub fn prepare(&self, resized: &Vec<u8>) -> (outcome: Result<LineRequest, DenoiseError>)
        requires
            self.params.hl_step != 0,
            self.params.vl_step != 0,
        ensures
            preparing_outcome(resized@, self.params, outcome),
    {
        let image = match DenoiserApp::add_white_lines(
            resized,
            self.params.hl_thickness,
            self.params.hl_step,
            self.params.vl_thickness,
            self.params.vl_step,
        ) {
            Ok(image) => image,
            Err(error) => {
                return Err(error);
            },
        };
        let png: Vec<u8> = match DenoiserApp::img_to_bytes(&image) {
            Ok(png) => png,
            Err(error) => {
                return Err(error);
            },
        };
        Ok(
            LineRequest {
                png,
                line_threshold: self.params.line_threshold,
                aperture: fixed_aperture(self.params.aperture),
                l2_gradient: self.params.l2_gradient,
            },
        )
    }
}

} // verus!
