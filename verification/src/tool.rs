//! A tool call's own record: its arguments, the metadata its run produced
//! and its output, which is missing until the call has run.

use crate::reap::ToolCall;
use vstd::prelude::*;

verus! {

/// A tool call: arguments, metadata and output.
#[derive(Debug, Clone, PartialEq, Eq)]
pub struct GenericTask<TArgs, TMeta, TResult> {
    pub arguments: Option<TArgs>,
    pub meta: Option<TMeta>,
    /// `None` until run; `Some(Err(..))` after a failed run (the error is
    /// still handed to the model)
    pub output: Option<Result<TResult, String>>,
}

impl<TArgs, TMeta, TResult> GenericTask<TArgs, TMeta, TResult> {
    /// A call with these arguments that has not run yet.
    pub fn new(arguments: TArgs) -> (t: Self)
        ensures
            t.arguments == Some(arguments),
            t.meta is None,
            t.output is None,
    {
        GenericTask { arguments: Some(arguments), meta: None, output: None }
    }

    /// Whether the call has run (successfully or not).
    pub fn resolved(&self) -> (b: bool)
        ensures
            b == self.output is Some,
    {
        self.output.is_some()
    }

    /// Records what the call's run returned: on success its result and
    /// metadata, on failure the error text (leaving the metadata as it was).
    pub fn record(&mut self, outcome: Result<(TResult, TMeta), String>)
        ensures
            final(self).arguments == old(self).arguments,
            match outcome {
                Ok((res, meta)) => final(self).meta == Some(meta) && final(self).output == Some(Ok::<TResult, String>(res)),
                Err(e) => final(self).meta == old(self).meta && final(self).output == Some(Err::<TResult, String>(e)),
            },
    {
        match outcome {
            Ok((res, meta)) => {
                self.meta = Some(meta);
                self.output = Some(Ok(res));
            },
            Err(e) => {
                self.output = Some(Err(e));
            },
        }
    }
}

impl<TArgs, TMeta, TResult> ToolCall for GenericTask<TArgs, TMeta, TResult> {
    /// A generic tool call does not stream: it keeps the output it returned.
    open spec fn composed(&self, streamed: Seq<char>) -> Self {
        *self
    }

    fn compose(&mut self, streamed: String) {
    }
}

} // verus!
