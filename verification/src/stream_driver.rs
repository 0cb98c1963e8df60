use crate::load_info::LoadInfo;
use vstd::prelude::*;

verus! {

/// Drives a loader on a task of its own: loading is suspended while the
/// stream holds at least `suspend_loading_threshold` unexamined items and
/// resumed once that amount falls to `resume_loading_threshold` or below.
pub struct ConcurrentDriver<S> {
    resume_loading_threshold: usize,
    suspend_loading_threshold: usize,
    spawner: S,
}

impl<S> ConcurrentDriver<S> {
    pub closed spec fn resume_threshold(&self) -> nat {
        self.resume_loading_threshold as nat
    }

    pub closed spec fn suspend_threshold(&self) -> nat {
        self.suspend_loading_threshold as nat
    }

    pub closed spec fn spawner(&self) -> S {
        self.spawner
    }

    pub open spec fn wf(&self) -> bool {
        self.resume_threshold() < self.suspend_threshold()
    }

    pub fn new(resume_loading_threshold: usize, suspend_loading_threshold: usize, spawner: S) -> (r:
        Self)
        requires
            resume_loading_threshold < suspend_loading_threshold,
        ensures
            r.wf(),
            r.resume_threshold() == resume_loading_threshold,
            r.suspend_threshold() == suspend_loading_threshold,
            r.spawner() == spawner,
    {
        Self { resume_loading_threshold, suspend_loading_threshold, spawner }
    }

    /// The state shared by the loading task and the session, and the spawner.
    pub fn start(self) -> (r: (DriverContext, S))
        requires
            self.wf(),
        ensures
            r.0.wf(),
            r.0.resume_threshold() == self.resume_threshold(),
            r.0.suspend_threshold() == self.suspend_threshold(),
            r.0.unexamined() == 0,
            r.0.state() == LoaderState::Running,
            r.1 == self.spawner(),
    {
        let context = DriverContext {
            resume_loading_threshold: self.resume_loading_threshold,
            suspend_loading_threshold: self.suspend_loading_threshold,
            unexamined_data_length: 0,
            loader_state: LoaderState::Running,
        };
        (context, self.spawner)
    }
}

/// Whether the loading task still runs, and how it ended.
#[derive(Debug, Clone, Copy, PartialEq, Eq)]
pub enum LoaderState {
    Running,
    TerminatedSuccessfully,
    TerminatedWithError,
}

/// The counters and state that the loading task and the stream share.
pub struct DriverContext {
    resume_loading_threshold: usize,
    suspend_loading_threshold: usize,
    unexamined_data_length: usize,
    loader_state: LoaderState,
}

/// What the loading task does after one load.
pub enum LoopAction<E> {
    /// Load again: first send the append signal if `notify_append` (data was
    /// appended, so waiting readers are released), then wait for the resume
    /// signal if `wait_for_resume`.
    Continue { notify_append: bool, wait_for_resume: bool },
    /// Stop: hand `result` to the session and signal that data was appended.
    Terminate { result: Result<(), E> },
}

impl DriverContext {
    pub closed spec fn resume_threshold(&self) -> nat {
        self.resume_loading_threshold as nat
    }

    pub closed spec fn suspend_threshold(&self) -> nat {
        self.suspend_loading_threshold as nat
    }

    /// Items appended to the stream and not yet examined by it.
    pub closed spec fn unexamined(&self) -> nat {
        self.unexamined_data_length as nat
    }

    pub closed spec fn state(&self) -> LoaderState {
        self.loader_state
    }

    pub open spec fn wf(&self) -> bool {
        self.resume_threshold() < self.suspend_threshold()
    }

    /// Records that the stream examined `amount` more items; returns whether
    /// the resume signal is to be sent.
    pub fn notify_data_examined(&mut self, amount: usize) -> (resume: bool)
        requires
            amount <= old(self).unexamined(),
        ensures
            final(self).unexamined() == old(self).unexamined() - amount,
            resume == (final(self).unexamined() <= old(self).resume_threshold()),
            final(self).resume_threshold() == old(self).resume_threshold(),
            final(self).suspend_threshold() == old(self).suspend_threshold(),
            final(self).state() == old(self).state(),
    {
        let new = self.unexamined_data_length - amount;
        self.unexamined_data_length = new;
        new <= self.resume_loading_threshold
    }

    /// Records that the loader appended `amount` items; returns whether the
    /// loader is to wait for the resume signal before loading again.
    pub fn notify_data_append(&mut self, amount: usize) -> (wait: bool)
        requires
            old(self).wf(),
            old(self).unexamined() + amount <= usize::MAX,
        ensures
            final(self).unexamined() == old(self).unexamined() + amount,
            wait == (final(self).unexamined() >= old(self).suspend_threshold()),
            final(self).resume_threshold() == old(self).resume_threshold(),
            final(self).suspend_threshold() == old(self).suspend_threshold(),
            final(self).state() == old(self).state(),
    {
        let new = self.unexamined_data_length + amount;
        self.unexamined_data_length = new;
        if new < self.suspend_loading_threshold {
            false
        } else if new <= self.resume_loading_threshold {
            false
        } else {
            true
        }
    }

    /// How many appended items the stream has not examined yet.
    pub fn unexamined_len(&self) -> (r: usize)
        ensures
            r == self.unexamined(),
    {
        self.unexamined_data_length
    }

    /// Whether the loading task has ended.
    pub fn is_terminated(&self) -> (r: bool)
        ensures
            r == (self.state() != LoaderState::Running),
    {
        match self.loader_state {
            LoaderState::Running => false,
            _ => true,
        }
    }

    /// The decision of the loading task after one load: appended data is
    /// counted and may suspend loading; the end of the data or an error ends
    /// the task with that outcome.
    pub fn on_load_result<E>(&mut self, result: Result<Option<LoadInfo>, E>) -> (r: LoopAction<E>)
        requires
            old(self).wf(),
            result matches Ok(Some(info)) ==> old(self).unexamined() + info@.0 <= usize::MAX,
        ensures
            final(self).wf(),
            final(self).resume_threshold() == old(self).resume_threshold(),
            final(self).suspend_threshold() == old(self).suspend_threshold(),
            match result {
                Ok(Some(info)) => {
                    &&& final(self).state() == old(self).state()
                    &&& final(self).unexamined() == old(self).unexamined() + info@.0
                    &&& r matches LoopAction::Continue { notify_append, wait_for_resume }
                        && notify_append == (info@.0 > 0) && wait_for_resume == (info@.0 > 0
                        && final(self).unexamined() >= old(self).suspend_threshold())
                },
                Ok(None) => {
                    &&& final(self).state() == LoaderState::TerminatedSuccessfully
                    &&& final(self).unexamined() == old(self).unexamined()
                    &&& r == LoopAction::<E>::Terminate { result: Ok(()) }
                },
                Err(e) => {
                    &&& final(self).state() == LoaderState::TerminatedWithError
                    &&& final(self).unexamined() == old(self).unexamined()
                    &&& r == LoopAction::<E>::Terminate { result: Err(e) }
                },
            },
    {
        match result {
            Ok(Some(load)) => {
                let committed = load.committed();
                if committed > 0 {
                    let wait = self.notify_data_append(committed);
                    LoopAction::Continue { notify_append: true, wait_for_resume: wait }
                } else {
                    LoopAction::Continue { notify_append: false, wait_for_resume: false }
                }
            },
            Ok(None) => {
                self.loader_state = LoaderState::TerminatedSuccessfully;
                LoopAction::Terminate { result: Ok(()) }
            },
            Err(e) => {
                self.loader_state = LoaderState::TerminatedWithError;
                LoopAction::Terminate { result: Err(e) }
            },
        }
    }

    /// The outcome of waiting for appended data, once the append signal came:
    /// `Ok` while the loader runs; otherwise the loader's final result, which
    /// is taken out of `loader_result` so that it is handed out only once.
    pub fn after_append_signal<E>(&self, loader_result: &mut Option<Result<(), E>>) -> (r: Option<
        Result<(), E>,
    >)
        ensures
            self.state() == LoaderState::Running ==> r == Some(Ok::<(), E>(()))
                && *final(loader_result) == *old(loader_result),
            self.state() != LoaderState::Running ==> r == *old(loader_result)
                && *final(loader_result) is None,
    {
        match self.loader_state {
            LoaderState::Running => Some(Ok(())),
            _ => loader_result.take(),
        }
    }
}

} // verus!
