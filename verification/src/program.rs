//! The hot-reloadable shader program handle: a state machine over
//! compile outcomes.
//!
//! The compiler, the filesystem watch and the GPU live outside this
//! library; a driver re-arms the watch, recompiles when a watched
//! source changed, and feeds the outcome to [`ProgramHandle::poll`].
//! The defining contract of the component: once a working program is
//! held, a failed recompilation never replaces it — the handle serves
//! the last valid program until a recompilation succeeds.

use vstd::prelude::*;

verus! {

/// A shader source failed to build. Routinely expected in normal
/// operation (a file saved mid-edit); it degrades the program state
/// without losing a previously working program.
#[derive(Clone, Debug)]
pub struct CompileError {
    /// The compiler's message.
    pub message: String,
}

/// The handle's state: the last successfully compiled program, or the
/// error of the last compile if none succeeded yet.
pub enum ProgramState<P> {
    /// A compiled program, ready to draw with.
    Valid(P),
    /// No working program yet; callers skip drawing this tick.
    Invalid(CompileError),
}

/// What one poll does to the state: with hot reload off, or without a
/// watch event, nothing. A successful recompile installs the new
/// program. A failed recompile is recorded only if no working program
/// is held — a valid program is never discarded for a failure.
pub open spec fn step_state<P>(
    state: ProgramState<P>,
    hot_reload: bool,
    event: Option<Result<P, CompileError>>,
) -> ProgramState<P> {
    match event {
        None => state,
        Some(outcome) => {
            if !hot_reload {
                state
            } else {
                match outcome {
                    Ok(program) => ProgramState::Valid(program),
                    Err(error) => {
                        if state is Valid {
                            state
                        } else {
                            ProgramState::Invalid(error)
                        }
                    },
                }
            }
        },
    }
}

/// Repeated polls whose events are all failed recompiles.
pub open spec fn run_failures<P>(
    state: ProgramState<P>,
    hot_reload: bool,
    errors: Seq<CompileError>,
) -> ProgramState<P>
    decreases errors.len(),
{
    if errors.len() == 0 {
        state
    } else {
        run_failures(
            step_state(state, hot_reload, Some(Err(errors[0]))),
            hot_reload,
            errors.subrange(1, errors.len() as int),
        )
    }
}

/// Owns the present program state and the hot-reload configuration.
/// The program type `P` is whatever the rendering backend compiles
/// to; this handle never looks inside it.
pub struct ProgramHandle<P> {
    /// The present state.
    pub state: ProgramState<P>,
    /// Whether edits to the shader sources are picked up at runtime.
    /// When off, `poll` does nothing and the program never changes
    /// after construction.
    pub hot_reload: bool,
}

impl<P> ProgramHandle<P> {
    /// A handle in the state of the first compile attempt: either
    /// state is reachable from the start.
    pub fn new(hot_reload: bool, first_compile: Result<P, CompileError>) -> (handle:
        ProgramHandle<P>)
        ensures
            handle.hot_reload == hot_reload,
            handle.state == match first_compile {
                Ok(program) => ProgramState::<P>::Valid(program),
                Err(error) => ProgramState::<P>::Invalid(error),
            },
    {
        let state = match first_compile {
            Ok(program) => ProgramState::Valid(program),
            Err(error) => ProgramState::Invalid(error),
        };
        ProgramHandle { state, hot_reload }
    }

    /// Applies the outcome of one tick's poll: `None` when no watched
    /// source changed, otherwise the result of the recompilation the
    /// driver ran. Checked at most once per tick, non-blocking.
    pub fn poll(&mut self, event: Option<Result<P, CompileError>>)
        ensures
            final(self).hot_reload == old(self).hot_reload,
            final(self).state == step_state(old(self).state, old(self).hot_reload, event),
    {
        if !self.hot_reload {
            return ;
        }
        match event {
            None => {},
            Some(outcome) => {
                match outcome {
                    Ok(program) => {
                        self.state = ProgramState::Valid(program);
                    },
                    Err(error) => {
                        match &self.state {
                            ProgramState::Valid(_) => {},
                            ProgramState::Invalid(_) => {
                                self.state = ProgramState::Invalid(error);
                            },
                        }
                    },
                }
            },
        }
    }

    /// The present state, without side effects: the program to draw
    /// with, or the error of the last compile — callers that get the
    /// error skip drawing for the tick rather than treating it as
    /// fatal.
    pub fn as_program(&self) -> (result: Result<&P, &CompileError>)
        ensures
            match self.state {
                ProgramState::Valid(program) => result matches Ok(p) && *p == program,
                ProgramState::Invalid(error) => result matches Err(e) && *e == error,
            },
    {
        match &self.state {
            ProgramState::Valid(program) => Ok(program),
            ProgramState::Invalid(error) => Err(error),
        }
    }
}

/// The component's defining invariant: once the handle holds a valid
/// program, no sequence of failed recompilation attempts changes it —
/// after any number of polls that all carry failures, the state (and
/// so the program identity `as_program` serves) is exactly what it
/// was. The state changes only through a recompilation that itself
/// succeeds.
pub proof fn lemma_valid_survives_failed_recompiles<P>(
    state: ProgramState<P>,
    hot_reload: bool,
    errors: Seq<CompileError>,
)
    requires
        state is Valid,
    ensures
        run_failures(state, hot_reload, errors) == state,
    decreases errors.len(),
{
    if errors.len() > 0 {
        lemma_valid_survives_failed_recompiles(
            step_state(state, hot_reload, Some(Err(errors[0]))),
            hot_reload,
            errors.subrange(1, errors.len() as int),
        );
    }
}

} // verus!
