//! What holds of the state of the viewer, its settings and what it shows.

use vstd::prelude::*;

use crate::denoiser_app::{advanced, files, AppState, DenoiserApp};
use crate::denoiser_params::DenoiserParams;
use crate::error::DenoiseError;
use crate::laws::{app_after, app_step, AppEvent};
use crate::ocr_wrapper::{front, OcrWorker, WorkerState};
use crate::picture::{expands_to, load_outcome, loads_as, Picture};
use crate::plane::{lemma_index, Grid};
use crate::utils::{
    premultiplied, scaled_by_alpha, screen_pixel, shows, showing_outcome, ColorImage,
};

verus! {

/// The first value of a queue and the values behind it are the queue. Nothing is in front
/// exactly where the queue is empty.
pub proof fn law_front_is_the_first<T>(queue: Seq<T>)
    ensures
        front(queue) is None <==> queue.len() == 0,
        front(queue) matches Some(value) ==> queue == seq![value] + advanced(queue),
        queue.len() == 0 ==> advanced(queue).len() == 0,
{
    if queue.len() > 0 {
        assert(queue =~= seq![queue[0]] + queue.drop_first());
    }
}

/// A scaled picture waits behind all others, however many there are, and nothing else changes.
pub proof fn law_scaled_picture_waits_last(state: AppState, file: Seq<u8>)
    ensures
        ({
            let after = state.scaled(file);
            &&& after.orig.len() == state.orig.len() + 1
            &&& after.orig.last() == file
            &&& after.orig.drop_last() == state.orig
            &&& after.denoised == state.denoised
            &&& after.density == state.density
            &&& after.lines == state.lines
            &&& after.result == state.result
            &&& after.worker == state.worker
        }),
{
    assert(state.scaled(file).orig.drop_last() =~= state.orig);
}

/// What a run delivers waits behind all others of its kind, the picture without lines is kept,
/// and nothing else changes.
pub proof fn law_delivered_pictures_wait_last(
    state: AppState,
    mask: ColorImage,
    inpainted: Seq<u8>,
    ruled: Seq<u8>,
)
    ensures
        ({
            let after = state.delivered(mask, inpainted, ruled);
            &&& after.lines.len() == state.lines.len() + 1
            &&& after.lines.last() == mask
            &&& after.lines.drop_last() == state.lines
            &&& after.denoised.len() == state.denoised.len() + 1
            &&& after.denoised.last() == inpainted
            &&& after.denoised.drop_last() == state.denoised
            &&& after.density.len() == state.density.len() + 1
            &&& after.density.last() == ruled
            &&& after.density.drop_last() == state.density
            &&& after.result == Some(inpainted)
            &&& after.orig == state.orig
            &&& after.worker == state.worker
        }),
{
    let after = state.delivered(mask, inpainted, ruled);
    assert(after.lines.drop_last() =~= state.lines);
    assert(after.denoised.drop_last() =~= state.denoised);
    assert(after.density.drop_last() =~= state.density);
}

/// Asking for a text hands the kept picture to the worker, behind all jobs that wait, and
/// changes nothing else. Before the first run there is nothing to hand over.
pub proof fn law_asking_hands_over_the_result(state: AppState)
    requires
        state.result is Some ==> state.worker.running,
    ensures
        ({
            let after = state.asked_for_text();
            &&& after.orig == state.orig
            &&& after.denoised == state.denoised
            &&& after.density == state.density
            &&& after.lines == state.lines
            &&& after.result == state.result
            &&& state.result is None ==> after.worker == state.worker
            &&& state.result matches Some(file) ==> {
                &&& after.worker.jobs.len() == state.worker.jobs.len() + 1
                &&& after.worker.jobs.last() == file
                &&& after.worker.jobs.drop_last() == state.worker.jobs
                &&& after.worker.results == state.worker.results
                &&& after.worker.text == state.worker.text
                &&& after.worker.running
            }
        }),
{
    assert(state.asked_for_text().worker.jobs.drop_last() =~= state.worker.jobs
        || state.result is None);
}

/// Showing takes the first of each kind out of its queue and changes nothing else.
pub proof fn law_showing_takes_the_first(state: AppState)
    ensures
        ({
            let after = state.shown();
            &&& state.orig.len() > 0 ==> state.orig == seq![state.orig[0]] + after.orig
            &&& state.denoised.len() > 0 ==> state.denoised == seq![state.denoised[0]]
                + after.denoised
            &&& state.density.len() > 0 ==> state.density == seq![state.density[0]] + after.density
            &&& state.lines.len() > 0 ==> state.lines == seq![state.lines[0]] + after.lines
            &&& state.orig.len() == 0 ==> after.orig.len() == 0
            &&& state.denoised.len() == 0 ==> after.denoised.len() == 0
            &&& state.density.len() == 0 ==> after.density.len() == 0
            &&& state.lines.len() == 0 ==> after.lines.len() == 0
            &&& after.result == state.result
            &&& after.worker == state.worker
        }),
{
    law_front_is_the_first(state.orig);
    law_front_is_the_first(state.denoised);
    law_front_is_the_first(state.density);
    law_front_is_the_first(state.lines);
}

/// What came in and what was shown in the course of some events, of one kind after another:
/// scaled pictures, pictures without lines, pictures that were searched, pictures of lines.
pub ghost struct History {
    pub orig: Seq<Seq<u8>>,
    pub denoised: Seq<Seq<u8>>,
    pub density: Seq<Seq<u8>>,
    pub lines: Seq<ColorImage>,
}

/// All that came in.
pub open spec fn came_in(events: Seq<AppEvent>) -> History
    decreases events.len(),
{
    if events.len() == 0 {
        History {
            orig: Seq::empty(),
            denoised: Seq::empty(),
            density: Seq::empty(),
            lines: Seq::empty(),
        }
    } else {
        let before = came_in(events.drop_last());
        match events.last() {
            AppEvent::Scaled(file) => History { orig: before.orig.push(file), ..before },
            AppEvent::Delivered(mask, inpainted, ruled) => History {
                denoised: before.denoised.push(inpainted),
                density: before.density.push(ruled),
                lines: before.lines.push(mask),
                ..before
            },
            _ => before,
        }
    }
}

/// Some values with the one in front of a queue behind them, if there is one.
pub open spec fn with_front<T>(values: Seq<T>, queue: Seq<T>) -> Seq<T> {
    match front(queue) {
        Some(value) => values.push(value),
        None => values,
    }
}

/// All that was shown.
pub open spec fn was_shown(events: Seq<AppEvent>) -> History
    decreases events.len(),
{
    if events.len() == 0 {
        History {
            orig: Seq::empty(),
            denoised: Seq::empty(),
            density: Seq::empty(),
            lines: Seq::empty(),
        }
    } else {
        let before = was_shown(events.drop_last());
        let state = app_after(events.drop_last());
        match events.last() {
            AppEvent::Shown => History {
                orig: with_front(before.orig, state.orig),
                denoised: with_front(before.denoised, state.denoised),
                density: with_front(before.density, state.density),
                lines: with_front(before.lines, state.lines),
            },
            _ => before,
        }
    }
}

/// Taking the value in front out of a queue and noting it keeps the two together.
proof fn lemma_with_front<T>(values: Seq<T>, queue: Seq<T>)
    ensures
        with_front(values, queue) + advanced(queue) == values + queue,
{
    assert(with_front(values, queue) + advanced(queue) =~= values + queue);
}

/// In the course of any events nothing is lost, doubled or put out of order: what was shown and
/// then what waits is what came in.
pub proof fn law_everything_is_shown_in_order(events: Seq<AppEvent>)
    ensures
        was_shown(events).orig + app_after(events).orig == came_in(events).orig,
        was_shown(events).denoised + app_after(events).denoised == came_in(events).denoised,
        was_shown(events).density + app_after(events).density == came_in(events).density,
        was_shown(events).lines + app_after(events).lines == came_in(events).lines,
    decreases events.len(),
{
    let seen = was_shown(events);
    let state = app_after(events);
    let all = came_in(events);
    if events.len() > 0 {
        let earlier = events.drop_last();
        law_everything_is_shown_in_order(earlier);
        let before = app_after(earlier);
        let noted = was_shown(earlier);
        assert(state == app_step(before, events.last()));
        match events.last() {
            AppEvent::Shown => {
                lemma_with_front(noted.orig, before.orig);
                lemma_with_front(noted.denoised, before.denoised);
                lemma_with_front(noted.density, before.density);
                lemma_with_front(noted.lines, before.lines);
            },
            _ => {
                assert(seen.orig + state.orig =~= all.orig);
                assert(seen.denoised + state.denoised =~= all.denoised);
                assert(seen.density + state.density =~= all.density);
                assert(seen.lines + state.lines =~= all.lines);
            },
        }
    } else {
        assert(seen.orig + state.orig =~= all.orig);
        assert(seen.denoised + state.denoised =~= all.denoised);
        assert(seen.density + state.density =~= all.density);
        assert(seen.lines + state.lines =~= all.lines);
    }
}

/// The kept picture is the last one without lines that came in.
pub proof fn law_kept_picture_is_the_latest(events: Seq<AppEvent>)
    ensures
        app_after(events).result == (if came_in(events).denoised.len() == 0 {
            None
        } else {
            Some(came_in(events).denoised.last())
        }),
    decreases events.len(),
{
    if events.len() > 0 {
        law_kept_picture_is_the_latest(events.drop_last());
    }
}

/// The state of the viewer is what its queues hold, each value in its place.
pub proof fn law_state_is_what_the_queues_hold(app: DenoiserApp)
    ensures
        app@.orig.len() == app.orig@.len(),
        app@.denoised.len() == app.denoised@.len(),
        app@.density.len() == app.density@.len(),
        forall|i: int| 0 <= i < app.orig@.len() ==> #[trigger] app@.orig[i] == app.orig@[i]@,
        forall|i: int|
            0 <= i < app.denoised@.len() ==> #[trigger] app@.denoised[i] == app.denoised@[i]@,
        forall|i: int|
            0 <= i < app.density@.len() ==> #[trigger] app@.density[i] == app.density@[i]@,
        app@.lines == app.lines@,
        app@.result is Some <==> app.result_holder is Some,
        app.result_holder matches Some(file) ==> app@.result == Some(file@),
        app@.worker == app.ocr_worker@,
{
}

/// The files of a queue, each in its place.
pub proof fn law_files_are_those_of_the_queue(queue: Seq<Vec<u8>>)
    ensures
        files(queue).len() == queue.len(),
        forall|i: int| 0 <= i < queue.len() ==> #[trigger] files(queue)[i] == queue[i]@,
{
}

/// The state of a worker is what its queues hold, each value in its place.
pub proof fn law_worker_state_is_what_the_queues_hold(worker: OcrWorker)
    ensures
        worker@.jobs.len() == worker.jobs@.len(),
        worker@.results.len() == worker.results@.len(),
        forall|i: int|
            0 <= i < worker.jobs@.len() ==> #[trigger] worker@.jobs[i] == worker.jobs@[i].bytes@,
        forall|i: int|
            0 <= i < worker.results@.len() ==> #[trigger] worker@.results[i]
                == worker.results@[i].text@,
        worker@.text is Some <==> worker.text is Some,
        worker.text matches Some(text) ==> worker@.text == Some(text@),
        worker@.running == worker.running,
{
}

/// At the start nothing waits, nothing was found, and the worker takes jobs.
pub proof fn law_nothing_waits_at_the_start()
    ensures
        AppState::initial().orig.len() == 0,
        AppState::initial().denoised.len() == 0,
        AppState::initial().density.len() == 0,
        AppState::initial().lines.len() == 0,
        AppState::initial().result is None,
        AppState::initial().worker == WorkerState::initial(),
        WorkerState::initial().jobs.len() == 0,
        WorkerState::initial().results.len() == 0,
        WorkerState::initial().text is None,
        WorkerState::initial().running,
{
}

/// A job waits behind all others, however many there are, as long as the worker runs.
pub proof fn law_job_waits_last(worker: WorkerState, bytes: Seq<u8>)
    ensures
        ({
            let after = worker.submitted(bytes);
            &&& worker.running ==> after.jobs.len() == worker.jobs.len() + 1 && after.jobs.last()
                == bytes && after.jobs.drop_last() == worker.jobs
            &&& !worker.running ==> after.jobs == worker.jobs
            &&& after.results == worker.results
            &&& after.text == worker.text
            &&& after.running == worker.running
        }),
{
    assert(worker.running ==> worker.submitted(bytes).jobs.drop_last() =~= worker.jobs);
}

/// Taking a job and fetching a text take the first and change nothing else.
pub proof fn law_worker_takes_the_first(worker: WorkerState)
    ensures
        ({
            let after = worker.taken();
            &&& worker.jobs.len() > 0 ==> worker.jobs == seq![worker.jobs[0]] + after.jobs
            &&& worker.jobs.len() == 0 ==> after.jobs.len() == 0
            &&& after.results == worker.results
            &&& after.text == worker.text
            &&& after.running == worker.running
        }),
        ({
            let after = worker.fetched();
            &&& worker.results.len() > 0 ==> worker.results == seq![worker.results[0]]
                + after.results
            &&& worker.results.len() == 0 ==> after.results.len() == 0
            &&& after.jobs == worker.jobs
            &&& after.text == worker.text
            &&& after.running == worker.running
        }),
{
    assert(worker.jobs.len() > 0 ==> worker.jobs =~= seq![worker.jobs[0]] + worker.taken().jobs);
    assert(worker.results.len() > 0 ==> worker.results =~= seq![worker.results[0]]
        + worker.fetched().results);
}

/// A text that was found waits behind all others and is the latest. A failure takes the jobs
/// that wait with it and leaves what was found.
pub proof fn law_settling_notes_the_text(worker: WorkerState, text: Seq<char>)
    ensures
        worker.settled(Some(text)) == worker.finished(text),
        worker.settled(None) == worker.stopped(),
        ({
            let after = worker.finished(text);
            &&& after.results.len() == worker.results.len() + 1
            &&& after.results.last() == text
            &&& after.results.drop_last() == worker.results
            &&& after.text == Some(text)
            &&& after.jobs == worker.jobs
            &&& after.running == worker.running
        }),
        ({
            let after = worker.stopped();
            &&& after.jobs.len() == 0
            &&& !after.running
            &&& after.results == worker.results
            &&& after.text == worker.text
        }),
{
    assert(worker.finished(text).results.drop_last() =~= worker.results);
}

/// The settings at the start.
pub proof fn law_settings_at_the_start(params: DenoiserParams, path: Seq<char>)
    ensures
        params.initial(path) <==> {
            &&& params.path@ == path
            &&& (params.block, params.delta) == (8u32, 10i32)
            &&& (params.erase_k, params.dilate_k, params.threshold) == (3u8, 1u8, 1u8)
            &&& (params.line_threshold, params.aperture) == (30i32, 3i32)
            &&& params.l2_gradient
            &&& (params.hl_thickness, params.hl_step) == (1u32, 10i32)
            &&& (params.vl_thickness, params.vl_step) == (1u32, 10i32)
        },
{
}

/// The panel offers blocks, deltas and thresholds up to 99999, apertures from 3 to 7, and lines
/// from 1 to 10 pixels thick and apart.
pub proof fn law_ranges_of_the_panel(params: DenoiserParams)
    ensures
        params.within_panel() <==> {
            &&& params.block < 100000
            &&& -1 < params.delta < 100000
            &&& -1 < params.line_threshold < 100000
            &&& 2 < params.aperture < 8
            &&& 0 < params.hl_thickness < 11 && 0 < params.hl_step < 11
            &&& 0 < params.vl_thickness < 11 && 0 < params.vl_step < 11
        },
{
}

/// Whether `scaled` is the integer that is nearest to `value` scaled by the alpha.
pub open spec fn is_nearest(value: u8, alpha: u8, scaled: u8) -> bool {
    -255 < 2 * (value * alpha) - 510 * scaled < 255
}

/// A colour is scaled by the alpha to the nearest integer: it is as it was on an opaque pixel,
/// vanishes on a transparent one, and is never more than the alpha.
pub proof fn law_colours_are_scaled_to_the_nearest(value: u8, alpha: u8)
    ensures
        is_nearest(value, alpha, scaled_by_alpha(value, alpha)),
        forall|other: u8| #[trigger]
            is_nearest(value, alpha, other) ==> other == scaled_by_alpha(value, alpha),
        scaled_by_alpha(value, 255) == value,
        scaled_by_alpha(value, 0) == 0,
        scaled_by_alpha(value, alpha) <= alpha,
        scaled_by_alpha(value, alpha) <= value,
{
    let product = value * alpha;
    assert(0 <= product <= 255 * alpha && product <= 255 * value) by (nonlinear_arith)
        requires
            product == value * alpha,
            0 <= value <= 255,
            0 <= alpha <= 255,
    ;
    assert(2 * value * alpha == 2 * product) by (nonlinear_arith)
        requires
            product == value * alpha,
    ;
    assert(2 * value * 255 == 510 * value);
    assert(2 * value * 0 == 0);
}

/// A pixel of the screen keeps its alpha, and each of its colours is scaled by it.
pub proof fn law_pixels_keep_their_alpha(r: u8, g: u8, b: u8, a: u8)
    ensures
        premultiplied(r, g, b, a)[3] == a,
        is_nearest(r, a, premultiplied(r, g, b, a)[0]),
        is_nearest(g, a, premultiplied(r, g, b, a)[1]),
        is_nearest(b, a, premultiplied(r, g, b, a)[2]),
        premultiplied(r, g, b, 255)@ == seq![r, g, b, 255u8],
{
    law_colours_are_scaled_to_the_nearest(r, a);
    law_colours_are_scaled_to_the_nearest(g, a);
    law_colours_are_scaled_to_the_nearest(b, a);
    law_colours_are_scaled_to_the_nearest(r, 255);
    law_colours_are_scaled_to_the_nearest(g, 255);
    law_colours_are_scaled_to_the_nearest(b, 255);
    assert(premultiplied(r, g, b, 255)@ =~= seq![r, g, b, 255u8]);
}

/// A pixel of the screen is made of four bytes in a row: red, green, blue and alpha.
pub proof fn law_four_bytes_make_a_pixel(before: Seq<u8>, pixel: [u8; 4], after: Seq<u8>)
    requires
        before.len() % 4 == 0,
    ensures
        screen_pixel(before + pixel@ + after, (before.len() / 4) as int) == premultiplied(
            pixel[0],
            pixel[1],
            pixel[2],
            pixel[3],
        ),
{
    let i = (before.len() / 4) as int;
    let all = before + pixel@ + after;
    assert(4 * i == before.len());
    assert(all[4 * i] == pixel[0] && all[4 * i + 1] == pixel[1]);
    assert(all[4 * i + 2] == pixel[2] && all[4 * i + 3] == pixel[3]);
}

/// The picture for the screen shows every pixel of the plane in its place, with its alpha as it
/// was and its colours scaled by it.
pub proof fn law_screen_shows_every_pixel(
    image: ColorImage,
    grid: Grid<[u8; 4]>,
    x: int,
    y: int,
)
    requires
        grid.wf(),
        grid.width <= u32::MAX,
        grid.height <= u32::MAX,
        grid.has(x, y),
        shows(image, grid),
    ensures
        image.size[0] == grid.width,
        image.size[1] == grid.height,
        image.pixels@.len() == grid.width * grid.height,
        ({
            let shown = image.pixels@[y * grid.width + x];
            let pixel = grid.at(x, y);
            &&& shown[3] == pixel[3]
            &&& is_nearest(pixel[0], pixel[3], shown[0])
            &&& is_nearest(pixel[1], pixel[3], shown[1])
            &&& is_nearest(pixel[2], pixel[3], shown[2])
        }),
{
    lemma_index(grid.width as int, grid.height as int, x, y);
    let pixel = grid.at(x, y);
    assert(image.pixels@[y * grid.width + x] == premultiplied(
        pixel[0],
        pixel[1],
        pixel[2],
        pixel[3],
    ));
    law_pixels_keep_their_alpha(pixel[0], pixel[1], pixel[2], pixel[3]);
    assert(image.size@[0] == grid.width as usize);
    assert(image.size@[1] == grid.height as usize);
}

/// A file is shown as the picture that it loads as. It is refused exactly where it cannot be
/// decoded or its bytes would have no address.
pub proof fn law_screen_shows_the_file(
    bytes: Seq<u8>,
    outcome: Result<ColorImage, DenoiseError>,
)
    requires
        showing_outcome(bytes, outcome),
    ensures
        (match outcome {
            Ok(image) => exists|picture: Picture, grid: Grid<[u8; 4]>| #[trigger]
                loads_as(bytes, picture) && #[trigger] expands_to(picture, grid) && shows(
                    image,
                    grid,
                ),
            Err(DenoiseError::Undecodable) => load_outcome(bytes, None),
            Err(DenoiseError::Geometry) => exists|picture: Picture| #[trigger]
                loads_as(bytes, picture) && 4 * picture.width * picture.height > isize::MAX,
            Err(DenoiseError::Unencodable) => false,
        }),
{
}

} // verus!
