//! What holds of the worker that reads text.

use vstd::prelude::*;

use crate::ocr_wrapper::WorkerState;

verus! {

/// The texts of the jobs before the first one that cannot be read.
pub open spec fn readable_texts(
    jobs: Seq<Seq<u8>>,
    read: spec_fn(Seq<u8>) -> Option<Seq<char>>,
) -> Seq<Seq<char>>
    decreases jobs.len(),
{
    if jobs.len() == 0 {
        Seq::empty()
    } else {
        match read(jobs[0]) {
            Some(text) => seq![text] + readable_texts(jobs.drop_first(), read),
            None => Seq::empty(),
        }
    }
}

/// Every job can be read.
pub open spec fn all_readable(
    jobs: Seq<Seq<u8>>,
    read: spec_fn(Seq<u8>) -> Option<Seq<char>>,
) -> bool {
    forall|i: int| 0 <= i < jobs.len() ==> read(#[trigger] jobs[i]) is Some
}

/// A worker reads its jobs in the order in which they were handed in, one text for each, up
/// to the first that cannot be read. That one ends the worker, and the latest text stays that
/// of the last job before it.
pub proof fn law_texts_follow_jobs(
    worker: WorkerState,
    read: spec_fn(Seq<u8>) -> Option<Seq<char>>,
)
    ensures
        worker.worked_off(read).jobs.len() == 0,
        worker.worked_off(read).results == worker.results + readable_texts(worker.jobs, read),
        worker.worked_off(read).running == (worker.running && all_readable(worker.jobs, read)),
        worker.worked_off(read).text == (if readable_texts(worker.jobs, read).len() == 0 {
            worker.text
        } else {
            Some(readable_texts(worker.jobs, read).last())
        }),
    decreases worker.jobs.len(),
{
    let texts = readable_texts(worker.jobs, read);
    if worker.jobs.len() == 0 {
        assert(worker.results + texts =~= worker.results);
    } else {
        let next = worker.taken().settled(read(worker.jobs[0]));
        law_texts_follow_jobs(next, read);
        let rest = worker.jobs.drop_first();
        match read(worker.jobs[0]) {
            Some(text) => {
                assert(next.jobs =~= rest);
                assert(next.results + readable_texts(rest, read) =~= worker.results + texts);
                assert forall|i: int| 0 <= i < rest.len() implies #[trigger] rest[i]
                    == worker.jobs[i + 1] by {}
                if all_readable(rest, read) {
                    assert forall|i: int| 0 <= i < worker.jobs.len() implies read(
                        #[trigger] worker.jobs[i],
                    ) is Some by {
                        if i > 0 {
                            assert(worker.jobs[i] == rest[i - 1]);
                        }
                    }
                } else {
                    let k = choose|k: int| 0 <= k < rest.len() && !(read(#[trigger] rest[k]) is Some);
                    assert(worker.jobs[k + 1] == rest[k]);
                }
            },
            None => {
                assert(next.jobs.len() == 0);
                assert(worker.results + texts =~= worker.results);
            },
        }
    }
}

/// A worker that has stopped stays as it is, whatever is handed in, and what it found before
/// can still be fetched.
pub proof fn law_stopped_worker_ignores_jobs(worker: WorkerState, bytes: Seq<u8>)
    ensures
        worker.stopped().submitted(bytes) == worker.stopped(),
        worker.stopped().results == worker.results,
        worker.stopped().text == worker.text,
{
}

/// What can happen around a worker.
pub ghost enum WorkerEvent {
    /// A file is handed in.
    Submitted(Seq<u8>),
    /// The worker takes the next job, if it has none and one waits.
    Taken,
    /// The worker is done with its job.
    Settled,
    /// A text is fetched, if one waits.
    Fetched,
}

/// A worker and what happened around it.
pub ghost struct WorkerRun {
    pub worker: WorkerState,
    /// All files that were handed in.
    pub submitted: Seq<Seq<u8>>,
    /// The job that the worker has taken and not yet settled.
    pub current: Option<Seq<u8>>,
    /// How many jobs were read.
    pub done: nat,
    /// All texts that were fetched.
    pub fetched: Seq<Seq<char>>,
}

impl WorkerRun {
    /// A worker at the start.
    pub open spec fn initial() -> WorkerRun {
        WorkerRun {
            worker: WorkerState::initial(),
            submitted: Seq::empty(),
            current: None,
            done: 0,
            fetched: Seq::empty(),
        }
    }

    /// One thing happens, where `read` is the text of a file, if it can be read.
    pub open spec fn after(
        self,
        event: WorkerEvent,
        read: spec_fn(Seq<u8>) -> Option<Seq<char>>,
    ) -> WorkerRun {
        match event {
            WorkerEvent::Submitted(bytes) => WorkerRun {
                worker: self.worker.submitted(bytes),
                submitted: self.submitted.push(bytes),
                ..self
            },
            WorkerEvent::Taken => if self.current is None && self.worker.jobs.len() > 0 {
                WorkerRun {
                    worker: self.worker.taken(),
                    current: Some(self.worker.jobs[0]),
                    ..self
                }
            } else {
                self
            },
            WorkerEvent::Settled => match self.current {
                Some(job) => WorkerRun {
                    worker: self.worker.settled(read(job)),
                    current: None,
                    done: if read(job) is Some {
                        self.done + 1
                    } else {
                        self.done
                    },
                    ..self
                },
                None => self,
            },
            WorkerEvent::Fetched => if self.worker.results.len() > 0 {
                WorkerRun {
                    worker: self.worker.fetched(),
                    fetched: self.fetched.push(self.worker.results[0]),
                    ..self
                }
            } else {
                self
            },
        }
    }

    /// The jobs that the worker still has to read.
    pub open spec fn pending(self) -> Seq<Seq<u8>> {
        match self.current {
            Some(job) => seq![job] + self.worker.jobs,
            None => self.worker.jobs,
        }
    }

    /// All texts that were found, fetched or not, in the order in which they were found.
    pub open spec fn found(self) -> Seq<Seq<char>> {
        self.fetched + self.worker.results
    }

    /// The texts that were found are those of the first jobs that were handed in, one for
    /// each, and the latest text is the last of them. While the worker runs, the other jobs
    /// wait in their order. Once it has stopped, the first of the others cannot be read, and
    /// none waits.
    pub open spec fn in_order(self, read: spec_fn(Seq<u8>) -> Option<Seq<char>>) -> bool {
        &&& self.done <= self.submitted.len()
        &&& self.found().len() == self.done
        &&& forall|i: int|
            0 <= i < self.done ==> read(self.submitted[i]) == Some(#[trigger] self.found()[i])
        &&& self.worker.text == (if self.done == 0 {
            None
        } else {
            Some(self.found()[self.done - 1])
        })
        &&& self.worker.running ==> self.pending() == self.submitted.skip(self.done as int)
        &&& !self.worker.running ==> self.pending().len() == 0 && self.done < self.submitted.len()
            && read(self.submitted[self.done as int]) is None
    }
}

/// What was found stays as it is when a text is fetched.
proof fn lemma_fetching_keeps_found(
    run: WorkerRun,
    read: spec_fn(Seq<u8>) -> Option<Seq<char>>,
)
    ensures
        run.after(WorkerEvent::Fetched, read).found() == run.found(),
{
    if run.worker.results.len() > 0 {
        assert(run.after(WorkerEvent::Fetched, read).found() =~= run.found());
    }
}

/// The order is kept whatever happens next.
pub proof fn law_events_keep_the_order(
    run: WorkerRun,
    event: WorkerEvent,
    read: spec_fn(Seq<u8>) -> Option<Seq<char>>,
)
    requires
        run.in_order(read),
    ensures
        run.after(event, read).in_order(read),
{
    let next = run.after(event, read);
    match event {
        WorkerEvent::Submitted(bytes) => {
            assert(next.found() =~= run.found());
            assert forall|i: int| 0 <= i < next.done implies read(next.submitted[i]) == Some(
                #[trigger] next.found()[i],
            ) by {
                assert(read(run.submitted[i]) == Some(run.found()[i]));
            }
            if run.worker.running {
                assert(next.pending() =~= run.pending().push(bytes));
                assert(next.submitted.skip(next.done as int) =~= run.submitted.skip(
                    run.done as int,
                ).push(bytes));
            }
        },
        WorkerEvent::Taken => {
            if run.current is None && run.worker.jobs.len() > 0 {
                assert(next.pending() =~= run.pending());
                assert(next.found() =~= run.found());
            }
        },
        WorkerEvent::Settled => {
            match run.current {
                Some(job) => {
                    assert(run.pending()[0] == job);
                    assert(run.pending().len() > 0);
                    assert(run.submitted[run.done as int] == job);
                    match read(job) {
                        Some(text) => {
                            assert(next.found() =~= run.found().push(text));
                            assert forall|i: int| 0 <= i < next.done implies read(
                                next.submitted[i],
                            ) == Some(#[trigger] next.found()[i]) by {
                                if i < run.done {
                                    assert(read(run.submitted[i]) == Some(run.found()[i]));
                                }
                            }
                            assert(next.pending() =~= run.pending().drop_first());
                            assert(next.submitted.skip(next.done as int) =~= run.submitted.skip(
                                run.done as int,
                            ).drop_first());
                        },
                        None => {
                            assert(next.found() =~= run.found());
                        },
                    }
                },
                None => {},
            }
        },
        WorkerEvent::Fetched => {
            lemma_fetching_keeps_found(run, read);
        },
    }
}

/// A worker around which some things happened, one after the other.
pub open spec fn worker_after(
    events: Seq<WorkerEvent>,
    read: spec_fn(Seq<u8>) -> Option<Seq<char>>,
) -> WorkerRun
    decreases events.len(),
{
    if events.len() == 0 {
        WorkerRun::initial()
    } else {
        worker_after(events.drop_last(), read).after(events.last(), read)
    }
}

/// However handing in, reading and fetching overlap, texts are found and fetched in the order
/// of the jobs, one for each, up to the first that cannot be read.
pub proof fn law_texts_come_in_order(
    events: Seq<WorkerEvent>,
    read: spec_fn(Seq<u8>) -> Option<Seq<char>>,
)
    ensures
        worker_after(events, read).in_order(read),
    decreases events.len(),
{
    if events.len() == 0 {
        let run = WorkerRun::initial();
        assert(run.pending() =~= run.submitted.skip(0));
    } else {
        law_texts_come_in_order(events.drop_last(), read);
        law_events_keep_the_order(
            worker_after(events.drop_last(), read),
            events.last(),
            read,
        );
    }
}

/// A job that cannot be read ends the worker: the texts of the jobs before it are found and
/// nothing else, whatever is handed in later, and the latest text stays that of the last job
/// before it.
pub proof fn law_bad_job_ends_the_worker(
    events: Seq<WorkerEvent>,
    read: spec_fn(Seq<u8>) -> Option<Seq<char>>,
    bad: nat,
)
    requires
        bad < worker_after(events, read).submitted.len(),
        read(worker_after(events, read).submitted[bad as int]) is None,
        forall|i: int|
            0 <= i < bad ==> read(#[trigger] worker_after(events, read).submitted[i]) is Some,
        worker_after(events, read).pending().len() == 0,
    ensures
        !worker_after(events, read).worker.running,
        worker_after(events, read).found().len() == bad,
        forall|i: int|
            0 <= i < bad ==> Some(#[trigger] worker_after(events, read).found()[i]) == read(
                worker_after(events, read).submitted[i],
            ),
        worker_after(events, read).worker.text == (if bad == 0 {
            None
        } else {
            read(worker_after(events, read).submitted[bad - 1])
        }),
{
    let run = worker_after(events, read);
    law_texts_come_in_order(events, read);
    if run.done > bad {
        assert(read(run.submitted[bad as int]) == Some(run.found()[bad as int]));
    }
    if run.worker.running {
        assert(run.submitted.skip(run.done as int).len() == 0);
    } else if run.done < bad {
        assert(read(run.submitted[run.done as int]) is Some);
    }
}

} // verus!
