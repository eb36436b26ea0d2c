//! Reading text out of a picture: the jobs, the worker that takes them, and what it found.

use std::collections::VecDeque;

use image::DynamicImage;
use pure_onnx_ocr::{OcrEngine, OcrError};
use vstd::prelude::*;

use crate::picture::load_from_memory;
#[allow(unused_imports)]
use crate::picture::{contents, load_outcome, loads_as, Picture};

verus! {

/// A picture file whose text is wanted.
pub struct OcrJob {
    pub bytes: Vec<u8>,
}

/// The text that was read from one job.
pub struct OcrOutput {
    pub text: String,
}

/// Why no text was read.
#[derive(Clone, Copy, Debug, PartialEq, Eq, Structural)]
pub enum OcrFailure {
    /// The file is no picture that can be decoded.
    Undecodable,
    /// The engine reported an error.
    Engine,
}

/// The recognition engine of the `pure_onnx_ocr` crate, carried through unopened.
#[verifier::external_type_specification]
#[verifier::external_body]
pub struct ExOcrEngine(OcrEngine);

/// The error of the `pure_onnx_ocr` crate, carried through unopened.
#[verifier::external_type_specification]
#[verifier::external_body]
pub struct ExOcrError(OcrError);

/// Whether `OcrEngine::run_from_image` may give `outcome` for `picture`: the texts of the
/// regions that it finds, in their order, or `None` where it reports an error.
pub uninterp spec fn reading_outcome(
    engine: OcrEngine,
    picture: Picture,
    outcome: Option<Seq<Seq<char>>>,
) -> bool;

/// What some strings hold.
pub open spec fn texts(strings: Seq<String>) -> Seq<Seq<char>> {
    strings.map_values(|s: String| s@)
}

/// Texts joined by line breaks.
pub open spec fn joined(texts: Seq<Seq<char>>) -> Seq<char>
    decreases texts.len(),
{
    if texts.len() == 0 {
        Seq::empty()
    } else if texts.len() == 1 {
        texts[0]
    } else {
        joined(texts.drop_last()) + seq!['\n'] + texts.last()
    }
}

/// Calls `OcrEngine::run_from_image` and keeps the text of every result.
///
/// What the engine reads depends on its models and on floating-point numbers: it is left to
/// [`reading_outcome`].
#[verifier::external_body]
fn run_engine(engine: &OcrEngine, image: &DynamicImage) -> (read: Result<Vec<String>, OcrError>)
    ensures
        (match read {
            Ok(strings) => reading_outcome(*engine, contents(*image), Some(texts(strings@))),
            Err(_) => reading_outcome(*engine, contents(*image), None),
        }),
{
    let results = engine.run_from_image(image)?;
    Ok(results.into_iter().map(|result| result.text).collect())
}

/// Joins texts by line breaks.
pub fn join_lines(lines: &Vec<String>) -> (text: String)
    ensures
        text@ == joined(texts(lines@)),
{
    let mut text = String::new();
    let mut i: usize = 0;
    while i < lines.len()
        invariant
            i <= lines@.len(),
            text@ == joined(texts(lines@).take(i as int)),
        decreases lines@.len() - i,
    {
        proof {
            reveal_strlit("\n");
            assert("\n"@ =~= seq!['\n']);
            assert(texts(lines@).take(i + 1).drop_last() =~= texts(lines@).take(i as int));
            assert(texts(lines@).take(i + 1).last() == lines@[i as int]@);
        }
        if i > 0 {
            text.append("\n");
        }
        text.append(lines[i].as_str());
        i += 1;
    }
    proof {
        assert(texts(lines@).take(lines@.len() as int) =~= texts(lines@));
    }
    text
}

/// What reading the text of a file may come to.
pub open spec fn ocr_outcome(
    engine: OcrEngine,
    bytes: Seq<u8>,
    outcome: Result<String, OcrFailure>,
) -> bool {
    match outcome {
        Ok(text) => exists|picture: Picture, lines: Seq<Seq<char>>| #[trigger]
            loads_as(bytes, picture) && #[trigger] reading_outcome(
                engine,
                picture,
                Some(lines),
            ) && text@ == joined(lines),
        Err(OcrFailure::Undecodable) => load_outcome(bytes, None),
        Err(OcrFailure::Engine) => exists|picture: Picture| #[trigger]
            loads_as(bytes, picture) && reading_outcome(engine, picture, None),
    }
}

/// A recognition engine.
pub struct OcrWrapper {
    pub engine: OcrEngine,
}

impl OcrWrapper {
    /// Reads the text of a picture file: the texts of the regions, one to a line.
    pub fn ocr(&self, bytes: &[u8]) -> (outcome: Result<String, OcrFailure>)
        ensures
            ocr_outcome(self.engine, bytes@, outcome),
    {
        let image = match load_from_memory(bytes) {
            Ok(image) => image,
            Err(_) => {
                return Err(OcrFailure::Undecodable);
            },
        };
        match run_engine(&self.engine, &image) {
            Ok(lines) => Ok(join_lines(&lines)),
            Err(_) => Err(OcrFailure::Engine),
        }
    }
}

/// The model of a worker.
#[verifier::ext_equal]
pub ghost struct WorkerState {
    /// The files that wait, in the order in which they were handed in.
    pub jobs: Seq<Seq<u8>>,
    /// The texts that wait to be fetched, in the order in which they were found.
    pub results: Seq<Seq<char>>,
    /// The text that was found last.
    pub text: Option<Seq<char>>,
    /// Whether anybody takes jobs.
    pub running: bool,
}

impl WorkerState {
    /// A worker at the start.
    pub open spec fn initial() -> WorkerState {
        WorkerState { jobs: Seq::empty(), results: Seq::empty(), text: None, running: true }
    }

    /// A job is handed in. Nobody takes it once the worker has stopped.
    pub open spec fn submitted(self, bytes: Seq<u8>) -> WorkerState {
        if self.running {
            WorkerState { jobs: self.jobs.push(bytes), ..self }
        } else {
            self
        }
    }

    /// The job that has waited longest is taken.
    pub open spec fn taken(self) -> WorkerState {
        if self.jobs.len() == 0 {
            self
        } else {
            WorkerState { jobs: self.jobs.drop_first(), ..self }
        }
    }

    /// A text was found.
    pub open spec fn finished(self, text: Seq<char>) -> WorkerState {
        WorkerState { results: self.results.push(text), text: Some(text), ..self }
    }

    /// The worker is gone, and the jobs that waited with it.
    pub open spec fn stopped(self) -> WorkerState {
        WorkerState { jobs: Seq::empty(), running: false, ..self }
    }

    /// The text that has waited longest is fetched.
    pub open spec fn fetched(self) -> WorkerState {
        if self.results.len() == 0 {
            self
        } else {
            WorkerState { results: self.results.drop_first(), ..self }
        }
    }

    /// The job that was taken is settled: its text was found, or reading it failed, which
    /// ends the worker.
    pub open spec fn settled(self, read: Option<Seq<char>>) -> WorkerState {
        match read {
            Some(text) => self.finished(text),
            None => self.stopped(),
        }
    }

    /// All jobs that wait are taken and settled one after the other, where `read` is the text
    /// of a file, if it can be read.
    pub open spec fn worked_off(self, read: spec_fn(Seq<u8>) -> Option<Seq<char>>) -> WorkerState
        decreases self.jobs.len(),
    {
        if self.jobs.len() == 0 {
            self
        } else {
            self.taken().settled(read(self.jobs[0])).worked_off(read)
        }
    }
}

/// The first of some waiting values, if there is one.
pub open spec fn front<T>(queue: Seq<T>) -> Option<T> {
    if queue.len() == 0 {
        None
    } else {
        Some(queue[0])
    }
}

/// The queue of jobs, the queue of texts and the latest text.
pub struct OcrWorker {
    pub jobs: VecDeque<OcrJob>,
    pub results: VecDeque<OcrOutput>,
    pub text: Option<String>,
    pub running: bool,
}

impl View for OcrWorker {
    type V = WorkerState;

    open spec fn view(&self) -> WorkerState {
        WorkerState {
            jobs: self.jobs@.map_values(|job: OcrJob| job.bytes@),
            results: self.results@.map_values(|output: OcrOutput| output.text@),
            text: match self.text {
                Some(text) => Some(text@),
                None => None,
            },
            running: self.running,
        }
    }
}

impl OcrWorker {
    /// A worker with nothing to do and nothing found.
    pub fn new() -> (worker: Self)
        ensures
            worker@ == WorkerState::initial(),
    {
        let worker = OcrWorker {
            jobs: VecDeque::new(),
            results: VecDeque::new(),
            text: None,
            running: true,
        };
        proof {
            assert(worker@.jobs =~= Seq::empty());
            assert(worker@.results =~= Seq::empty());
        }
        worker
    }

    /// Hands in a job. A worker that has stopped ignores it.
    pub fn submit(&mut self, bytes: Vec<u8>)
        ensures
            final(self)@ == old(self)@.submitted(bytes@),
    {
        let ghost before = self@;
        if self.running {
            self.jobs.push_back(OcrJob { bytes });
            proof {
                assert(self@.jobs =~= before.jobs.push(bytes@));
            }
        }
    }

    /// Takes the job that has waited longest.
    pub fn next_job(&mut self) -> (job: Option<OcrJob>)
        ensures
            final(self)@ == old(self)@.taken(),
            (match job {
                Some(job) => front(old(self)@.jobs) == Some(job.bytes@),
                None => old(self)@.jobs.len() == 0,
            }),
    {
        let ghost before = self@;
        let job = self.jobs.pop_front();
        proof {
            if job is Some {
                assert(self@.jobs =~= before.jobs.drop_first());
            }
        }
        job
    }

    /// Notes the text of the job that was taken last.
    pub fn finish(&mut self, text: String)
        ensures
            final(self)@ == old(self)@.finished(text@),
    {
        let ghost before = self@;
        self.text = Some(text.clone());
        self.results.push_back(OcrOutput { text });
        proof {
            assert(self@.results =~= before.results.push(text@));
        }
    }

    /// Settles the job that was taken last: its text is noted, or the worker ends where
    /// reading it failed.
    pub fn settle(&mut self, outcome: Result<String, OcrFailure>)
        ensures
            final(self)@ == old(self)@.settled(
                match outcome {
                    Ok(text) => Some(text@),
                    Err(_) => None,
                },
            ),
    {
        match outcome {
            Ok(text) => {
                self.finish(text);
            },
            Err(_) => {
                self.stop();
            },
        }
    }

    /// Ends the worker. Jobs that still wait are lost.
    pub fn stop(&mut self)
        ensures
            final(self)@ == old(self)@.stopped(),
    {
        self.jobs.clear();
        self.running = false;
        proof {
            assert(self@.jobs =~= Seq::empty());
        }
    }

    /// Fetches the text that has waited longest.
    pub fn try_recv(&mut self) -> (text: Option<String>)
        ensures
            final(self)@ == old(self)@.fetched(),
            (match text {
                Some(text) => front(old(self)@.results) == Some(text@),
                None => old(self)@.results.len() == 0,
            }),
    {
        let ghost before = self@;
        match self.results.pop_front() {
            Some(output) => {
                proof {
                    assert(self@.results =~= before.results.drop_first());
                }
                Some(output.text)
            },
            None => None,
        }
    }
}

} // verus!
