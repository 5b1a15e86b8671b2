//! The protocols of creating and of calling a device kernel: which request follows which
//! answer, and when each handle is released.
//!
//! The device is driven from outside. It performs the [`CreationRequest`] that a
//! [`KernelCreation`] is at, or the [`Request`] that a [`KernelCall`] is at, hands back the
//! answer, and goes on until the creation or the call returns or fails.
use vstd::prelude::*;

verus! {

/// Why a device kernel gives no result.
#[derive(Clone, Copy, Debug, PartialEq, Eq, Structural)]
pub enum KernelError {
    /// The device did not accept the kernel.
    Create,
    /// A request of a call failed.
    Apply,
}

impl KernelError {
    /// The text shown for this error.
    pub open spec fn text(self) -> Seq<char> {
        match self {
            KernelError::Create => "创建 Metal kernel 失败"@,
            KernelError::Apply => "执行 Metal kernel 失败"@,
        }
    }

    /// Returns [`KernelError::text`].
    pub fn message(&self) -> (r: &'static str)
        ensures
            r@ == self.text(),
    {
        match self {
            KernelError::Create => "创建 Metal kernel 失败",
            KernelError::Apply => "执行 Metal kernel 失败",
        }
    }
}

/// What the device is asked to do next to create a kernel.
#[derive(Clone, Copy, Debug, PartialEq, Eq, Structural)]
pub enum CreationRequest {
    /// Collects the names of the inputs.
    NewInputNames,
    /// Collects the names of the results.
    NewOutputNames,
    /// Creates the kernel; there is no handle where the device refuses it.
    NewKernel,
    FreeInputNames,
    FreeOutputNames,
    /// Nothing: the kernel is there.
    Return,
    /// Nothing: there is no kernel.
    Fail,
}

/// The creation of a device kernel.
#[derive(Clone, Copy, Debug, PartialEq, Eq, Structural)]
pub struct KernelCreation {
    pub request: CreationRequest,
    /// Whether the device has refused the kernel.
    pub refused: bool,
}

impl KernelCreation {
    /// The place of a request in a creation.
    pub open spec fn place(self) -> int {
        match self.request {
            CreationRequest::NewInputNames => 0,
            CreationRequest::NewOutputNames => 1,
            CreationRequest::NewKernel => 2,
            CreationRequest::FreeInputNames => 3,
            CreationRequest::FreeOutputNames => 4,
            CreationRequest::Return => 5,
            CreationRequest::Fail => 5,
        }
    }

    /// The creation is over.
    pub open spec fn is_over(self) -> bool {
        self.request is Return || self.request is Fail
    }

    /// The creation at its first request.
    pub open spec fn started() -> KernelCreation {
        KernelCreation { request: CreationRequest::NewInputNames, refused: false }
    }

    /// The creation after its request. The handle counts where it is that of the kernel.
    pub open spec fn after(self, handle_is_null: bool) -> KernelCreation {
        let refused = if self.request is NewKernel {
            handle_is_null
        } else {
            self.refused
        };
        let request = match self.request {
            CreationRequest::NewInputNames => CreationRequest::NewOutputNames,
            CreationRequest::NewOutputNames => CreationRequest::NewKernel,
            CreationRequest::NewKernel => CreationRequest::FreeInputNames,
            CreationRequest::FreeInputNames => CreationRequest::FreeOutputNames,
            CreationRequest::FreeOutputNames => if refused {
                CreationRequest::Fail
            } else {
                CreationRequest::Return
            },
            CreationRequest::Return => CreationRequest::Return,
            CreationRequest::Fail => CreationRequest::Fail,
        };
        KernelCreation { request, refused }
    }

    /// The start of a creation.
    pub fn start() -> (r: KernelCreation)
        ensures
            r == KernelCreation::started(),
    {
        KernelCreation { request: CreationRequest::NewInputNames, refused: false }
    }

    /// Goes on after a request that gave a handle or, where it is null, none.
    pub fn advance(&mut self, handle_is_null: bool)
        requires
            !old(self).is_over(),
        ensures
            *final(self) == old(self).after(handle_is_null),
            final(self).place() == old(self).place() + 1,
    {
        let (request, refused) = match self.request {
            CreationRequest::NewInputNames => (CreationRequest::NewOutputNames, self.refused),
            CreationRequest::NewOutputNames => (CreationRequest::NewKernel, self.refused),
            CreationRequest::NewKernel => (CreationRequest::FreeInputNames, handle_is_null),
            CreationRequest::FreeInputNames => (CreationRequest::FreeOutputNames, self.refused),
            CreationRequest::FreeOutputNames => if self.refused {
                (CreationRequest::Fail, true)
            } else {
                (CreationRequest::Return, false)
            },
            CreationRequest::Return => (CreationRequest::Return, self.refused),
            CreationRequest::Fail => (CreationRequest::Fail, self.refused),
        };
        *self = KernelCreation { request, refused };
    }

    /// What came of a creation that is over.
    pub fn result(&self) -> (r: Result<(), KernelError>)
        requires
            self.is_over(),
        ensures
            r == (if self.request is Return {
                Ok::<(), KernelError>(())
            } else {
                Err::<(), KernelError>(KernelError::Create)
            }),
    {
        match self.request {
            CreationRequest::Return => Ok(()),
            _ => Err(KernelError::Create),
        }
    }

    /// The requests of a creation from this one on, when the device answers each with
    /// `answers(request)`.
    pub open spec fn requests(
        self,
        answers: spec_fn(CreationRequest) -> bool,
    ) -> Seq<CreationRequest>
        decreases 5 - self.place(),
    {
        if self.is_over() {
            seq![self.request]
        } else {
            seq![self.request] + self.after(answers(self.request)).requests(answers)
        }
    }
}

/// A creation collects the names, creates the kernel once, and releases the names of the
/// inputs and of the results, whether or not the device refused the kernel. It gives a kernel
/// exactly when the device gave a handle.
pub proof fn lemma_creation(answers: spec_fn(CreationRequest) -> bool)
    ensures
        KernelCreation::started().requests(answers) == seq![
            CreationRequest::NewInputNames,
            CreationRequest::NewOutputNames,
            CreationRequest::NewKernel,
            CreationRequest::FreeInputNames,
            CreationRequest::FreeOutputNames,
            if answers(CreationRequest::NewKernel) {
                CreationRequest::Fail
            } else {
                CreationRequest::Return
            },
        ],
{
    reveal_with_fuel(KernelCreation::requests, 7);
    assert(KernelCreation::started().requests(answers) =~= seq![
        CreationRequest::NewInputNames,
        CreationRequest::NewOutputNames,
        CreationRequest::NewKernel,
        CreationRequest::FreeInputNames,
        CreationRequest::FreeOutputNames,
        if answers(CreationRequest::NewKernel) {
            CreationRequest::Fail
        } else {
            CreationRequest::Return
        },
    ]);
}

/// What the device is asked to do next in a call.
#[derive(Clone, Copy, Debug, PartialEq, Eq, Structural)]
pub enum Request {
    /// Collects the input arrays.
    NewInputs,
    /// Makes room for the list of results.
    NewOutputs,
    /// Starts a configuration.
    NewConfig,
    AddOutput,
    SetGrid,
    SetThreadGroup,
    /// Sets the template argument at this position.
    AddTemplateArg(usize),
    Apply,
    /// Makes room for the result.
    NewOutput,
    /// Takes the result out of the list of results.
    TakeOutput,
    FreeConfig,
    FreeInputs,
    FreeOutputs,
    FreeOutput,
    /// Nothing: the call is over and the result is there.
    Return,
    /// Nothing: the call is over without a result.
    Fail,
}

/// A handle of the device.
pub enum Handle {
    Inputs,
    Outputs,
    Config,
    Output,
}

/// A device kernel call.
#[derive(Clone, Copy, Debug, PartialEq, Eq, Structural)]
pub struct KernelCall {
    pub request: Request,
    /// How many template arguments there are to set.
    pub template_args: usize,
    /// Whether a request has failed.
    pub failed: bool,
}

/// The status of this request tells whether it failed.
pub open spec fn has_status(request: Request) -> bool {
    match request {
        Request::AddOutput => true,
        Request::SetGrid => true,
        Request::SetThreadGroup => true,
        Request::AddTemplateArg(_) => true,
        Request::Apply => true,
        Request::TakeOutput => true,
        _ => false,
    }
}

impl KernelCall {
    /// The place of a request in the longest call.
    pub open spec fn place(self) -> int {
        match self.request {
            Request::NewInputs => 0,
            Request::NewOutputs => 1,
            Request::NewConfig => 2,
            Request::AddOutput => 3,
            Request::SetGrid => 4,
            Request::SetThreadGroup => 5,
            Request::AddTemplateArg(i) => 6 + i,
            Request::Apply => 6 + self.template_args,
            Request::NewOutput => 7 + self.template_args,
            Request::TakeOutput => 8 + self.template_args,
            Request::FreeConfig => 9 + self.template_args,
            Request::FreeInputs => 10 + self.template_args,
            Request::FreeOutputs => 11 + self.template_args,
            Request::FreeOutput => 12 + self.template_args,
            Request::Return => 13 + self.template_args,
            Request::Fail => 13 + self.template_args,
        }
    }

    /// The call is over.
    pub open spec fn is_over(self) -> bool {
        self.request is Return || self.request is Fail
    }

    /// Kernels start, and results are returned, only where nothing has failed.
    pub open spec fn wf(self) -> bool {
        &&& (self.request matches Request::AddTemplateArg(i) ==> i < self.template_args)
        &&& self.failed ==> !(self.request is Apply) && !(self.request is TakeOutput) && !(
        self.request is Return)
        &&& !self.failed ==> !(self.request is FreeOutput) && !(self.request is Fail)
        &&& self.failed ==> self.place() >= 4
    }

    /// The call at its first request.
    pub open spec fn started(template_args: usize) -> KernelCall {
        KernelCall { request: Request::NewInputs, template_args, failed: false }
    }

    /// A request has failed, this one included.
    pub open spec fn fails(self, status: i32) -> bool {
        self.failed || (has_status(self.request) && status != 0)
    }

    /// The first of two requests, or the second where a request has failed.
    pub open spec fn choice(self, status: i32, a: Request, b: Request) -> Request {
        if self.fails(status) {
            b
        } else {
            a
        }
    }

    /// The request after this one.
    pub open spec fn next_request(self, status: i32) -> Request {
        match self.request {
            Request::NewInputs => Request::NewOutputs,
            Request::NewOutputs => Request::NewConfig,
            Request::NewConfig => Request::AddOutput,
            Request::AddOutput => Request::SetGrid,
            Request::SetGrid => Request::SetThreadGroup,
            Request::SetThreadGroup => if self.template_args > 0 {
                Request::AddTemplateArg(0)
            } else {
                self.choice(status, Request::Apply, Request::NewOutput)
            },
            Request::AddTemplateArg(i) => if i + 1 < self.template_args {
                Request::AddTemplateArg((i + 1) as usize)
            } else {
                self.choice(status, Request::Apply, Request::NewOutput)
            },
            Request::Apply => Request::NewOutput,
            Request::NewOutput => self.choice(status, Request::TakeOutput, Request::FreeConfig),
            Request::TakeOutput => Request::FreeConfig,
            Request::FreeConfig => Request::FreeInputs,
            Request::FreeInputs => Request::FreeOutputs,
            Request::FreeOutputs => self.choice(status, Request::Return, Request::FreeOutput),
            Request::FreeOutput => Request::Fail,
            Request::Return => Request::Return,
            Request::Fail => Request::Fail,
        }
    }

    /// The call after the status of its request.
    pub open spec fn after(self, status: i32) -> KernelCall {
        KernelCall {
            request: self.next_request(status),
            template_args: self.template_args,
            failed: self.fails(status),
        }
    }

    /// A call with this many template arguments.
    pub fn start(template_args: usize) -> (r: KernelCall)
        ensures
            r == KernelCall::started(template_args),
            r.wf(),
    {
        KernelCall { request: Request::NewInputs, template_args, failed: false }
    }

    /// Goes on after the status of the request.
    pub fn advance(&mut self, status: i32)
        requires
            old(self).wf(),
            !old(self).is_over(),
        ensures
            *final(self) == old(self).after(status),
            final(self).wf(),
            final(self).place() > old(self).place(),
    {
        let counts = match self.request {
            Request::AddOutput | Request::SetGrid | Request::SetThreadGroup
            | Request::AddTemplateArg(_) | Request::Apply | Request::TakeOutput => true,
            _ => false,
        };
        let failed: bool = self.failed || (counts && status != 0);
        let template_args: usize = self.template_args;
        let request = match self.request {
            Request::NewInputs => Request::NewOutputs,
            Request::NewOutputs => Request::NewConfig,
            Request::NewConfig => Request::AddOutput,
            Request::AddOutput => Request::SetGrid,
            Request::SetGrid => Request::SetThreadGroup,
            Request::SetThreadGroup => if template_args > 0 {
                Request::AddTemplateArg(0)
            } else if failed {
                Request::NewOutput
            } else {
                Request::Apply
            },
            Request::AddTemplateArg(i) => if i + 1 < template_args {
                Request::AddTemplateArg(i + 1)
            } else if failed {
                Request::NewOutput
            } else {
                Request::Apply
            },
            Request::Apply => Request::NewOutput,
            Request::NewOutput => if failed {
                Request::FreeConfig
            } else {
                Request::TakeOutput
            },
            Request::TakeOutput => Request::FreeConfig,
            Request::FreeConfig => Request::FreeInputs,
            Request::FreeInputs => Request::FreeOutputs,
            Request::FreeOutputs => if failed {
                Request::FreeOutput
            } else {
                Request::Return
            },
            Request::FreeOutput => Request::Fail,
            Request::Return => Request::Return,
            Request::Fail => Request::Fail,
        };
        *self = KernelCall { request, template_args, failed };
    }

    /// What came of a call that is over.
    pub fn result(&self) -> (r: Result<(), KernelError>)
        requires
            self.is_over(),
        ensures
            r == (if self.request is Return {
                Ok::<(), KernelError>(())
            } else {
                Err::<(), KernelError>(KernelError::Apply)
            }),
    {
        match self.request {
            Request::Return => Ok(()),
            _ => Err(KernelError::Apply),
        }
    }
}

/// The handle that a request creates.
pub open spec fn creates(request: Request) -> Option<Handle> {
    match request {
        Request::NewInputs => Some(Handle::Inputs),
        Request::NewOutputs => Some(Handle::Outputs),
        Request::NewConfig => Some(Handle::Config),
        Request::NewOutput => Some(Handle::Output),
        _ => None,
    }
}

/// The handle that a request releases.
pub open spec fn releases(request: Request) -> Option<Handle> {
    match request {
        Request::FreeInputs => Some(Handle::Inputs),
        Request::FreeOutputs => Some(Handle::Outputs),
        Request::FreeConfig => Some(Handle::Config),
        Request::FreeOutput => Some(Handle::Output),
        _ => None,
    }
}

/// How often a condition holds of the requests of a call, up to its end, when the device
/// answers each request with `answers(request)`.
pub open spec fn count(
    call: KernelCall,
    answers: spec_fn(Request) -> i32,
    condition: spec_fn(Request) -> bool,
) -> nat
    decreases 14 + call.template_args - call.place(),
    when call.wf()
{
    if call.is_over() {
        0
    } else {
        let here: nat = if condition(call.request) {
            1
        } else {
            0
        };
        here + count(call.after(answers(call.request)), answers, condition)
    }
}

/// The end of a call, when the device answers each request with `answers(request)`.
pub open spec fn end(call: KernelCall, answers: spec_fn(Request) -> i32) -> KernelCall
    decreases 14 + call.template_args - call.place(),
    when call.wf()
{
    if call.is_over() {
        call
    } else {
        end(call.after(answers(call.request)), answers)
    }
}

/// Every request that configures a call with `template_args` template arguments succeeds.
pub open spec fn configures(template_args: usize, answers: spec_fn(Request) -> i32) -> bool {
    &&& answers(Request::AddOutput) == 0
    &&& answers(Request::SetGrid) == 0
    &&& answers(Request::SetThreadGroup) == 0
    &&& forall|i: usize| i < template_args ==> #[trigger] answers(Request::AddTemplateArg(i)) == 0
}

/// The template arguments from `i` on are set without a failure.
spec fn sets_from(i: usize, template_args: usize, answers: spec_fn(Request) -> i32) -> bool {
    forall|j: usize|
        i <= j < template_args ==> #[trigger] answers(Request::AddTemplateArg(j)) == 0
}

/// The call after its last template argument.
spec fn configured(template_args: usize, ok: bool) -> KernelCall {
    KernelCall {
        request: if ok {
            Request::Apply
        } else {
            Request::NewOutput
        },
        template_args,
        failed: !ok,
    }
}

/// What follows template argument `i` of a call.
proof fn lemma_template_args(
    i: usize,
    template_args: usize,
    failed: bool,
    answers: spec_fn(Request) -> i32,
    condition: spec_fn(Request) -> bool,
)
    requires
        i < template_args,
        forall|j: usize| !(#[trigger] condition(Request::AddTemplateArg(j))),
    ensures
        ({
            let call = KernelCall { request: Request::AddTemplateArg(i), template_args, failed };
            let rest = configured(template_args, !failed && sets_from(i, template_args, answers));
            &&& end(call, answers) == end(rest, answers)
            &&& count(call, answers, condition) == count(rest, answers, condition)
        }),
    decreases template_args - i,
{
    let call = KernelCall { request: Request::AddTemplateArg(i), template_args, failed };
    let status = answers(Request::AddTemplateArg(i));
    let next = call.after(status);
    assert(call.wf());
    assert(end(call, answers) == end(next, answers));
    assert(count(call, answers, condition) == count(next, answers, condition));
    if i + 1 < template_args {
        let j = (i + 1) as usize;
        lemma_template_args(j, template_args, failed || status != 0, answers, condition);
        assert(sets_from(i, template_args, answers) == (status == 0 && sets_from(
            j,
            template_args,
            answers,
        ))) by {
            if status == 0 && sets_from(j, template_args, answers) {
                assert forall|m: usize| i <= m < template_args implies #[trigger] answers(
                    Request::AddTemplateArg(m),
                ) == 0 by {
                    if m != i {
                        assert(j <= m);
                    }
                }
            }
        }
    } else {
        assert(sets_from(i, template_args, answers) == (status == 0)) by {
            if status == 0 {
                assert forall|m: usize| i <= m < template_args implies #[trigger] answers(
                    Request::AddTemplateArg(m),
                ) == 0 by {
                    assert(m == i);
                }
            }
        }
    }
}

/// What follows the start of a call: three requests that create handles, and then what
/// follows the configuration.
proof fn lemma_configuration(
    template_args: usize,
    answers: spec_fn(Request) -> i32,
    condition: spec_fn(Request) -> bool,
)
    requires
        forall|r: Request| #[trigger] condition(r) ==> !has_status(r) || r is Apply,
    ensures
        ({
            let call = KernelCall::started(template_args);
            let rest = configured(template_args, configures(template_args, answers));
            let first: nat = if condition(Request::NewInputs) {
                1
            } else {
                0
            };
            let second: nat = if condition(Request::NewOutputs) {
                1
            } else {
                0
            };
            let third: nat = if condition(Request::NewConfig) {
                1
            } else {
                0
            };
            &&& end(call, answers) == end(rest, answers)
            &&& count(call, answers, condition) == first + second + third + count(
                rest,
                answers,
                condition,
            )
        }),
{
    reveal_with_fuel(count, 7);
    reveal_with_fuel(end, 7);
    let failed = answers(Request::AddOutput) != 0 || answers(Request::SetGrid) != 0 || answers(
        Request::SetThreadGroup,
    ) != 0;
    if template_args > 0 {
        lemma_template_args(0, template_args, failed, answers, condition);
        assert(sets_from(0, template_args, answers) == (forall|i: usize|
            i < template_args ==> #[trigger] answers(Request::AddTemplateArg(i)) == 0));
    }
}

/// A call gives a result exactly when every request succeeds that configures it, starts the
/// kernel, or takes the result.
pub proof fn lemma_result(template_args: usize, answers: spec_fn(Request) -> i32)
    ensures
        ({
            let last = end(KernelCall::started(template_args), answers);
            let ok = configures(template_args, answers) && answers(Request::Apply) == 0 && answers(
                Request::TakeOutput,
            ) == 0;
            last.request == if ok {
                Request::Return
            } else {
                Request::Fail
            }
        }),
{
    lemma_configuration(template_args, answers, |r: Request| false);
    reveal_with_fuel(end, 9);
}

/// A call starts the kernel once where its configuration succeeds, and never where it does
/// not.
pub proof fn lemma_starts(template_args: usize, answers: spec_fn(Request) -> i32)
    ensures
        count(KernelCall::started(template_args), answers, |r: Request| r is Apply) == if
            configures(template_args, answers) {
            1nat
        } else {
            0nat
        },
{
    lemma_configuration(template_args, answers, |r: Request| r is Apply);
    reveal_with_fuel(count, 9);
}

/// A call creates each handle once. It releases each handle once, but for the result of a
/// call that succeeds, which it never releases.
#[verifier::rlimit(30)]
pub proof fn lemma_handles(template_args: usize, answers: spec_fn(Request) -> i32, handle: Handle)
    ensures
        ({
            let call = KernelCall::started(template_args);
            let kept = handle is Output && end(call, answers).request is Return;
            &&& count(call, answers, |r: Request| creates(r) == Some(handle)) == 1
            &&& count(call, answers, |r: Request| releases(r) == Some(handle)) == if kept {
                0nat
            } else {
                1nat
            }
        }),
{
    lemma_configuration(template_args, answers, |r: Request| creates(r) == Some(handle));
    lemma_configuration(template_args, answers, |r: Request| releases(r) == Some(handle));
    reveal_with_fuel(count, 9);
    reveal_with_fuel(end, 9);
}

/// Which handles are there.
pub struct Live {
    pub inputs: bool,
    pub outputs: bool,
    pub config: bool,
    pub output: bool,
}

impl Live {
    /// No handle is there.
    pub open spec fn none() -> Live {
        Live { inputs: false, outputs: false, config: false, output: false }
    }

    /// Every handle that a request uses is there, and none that it creates.
    pub open spec fn allows(self, request: Request) -> bool {
        match request {
            Request::NewInputs => !self.inputs,
            Request::NewOutputs => !self.outputs,
            Request::NewConfig => !self.config,
            Request::AddOutput => self.config,
            Request::SetGrid => self.config,
            Request::SetThreadGroup => self.config,
            Request::AddTemplateArg(_) => self.config,
            Request::Apply => self.inputs && self.outputs && self.config,
            Request::NewOutput => !self.output,
            Request::TakeOutput => self.outputs && self.output,
            Request::FreeConfig => self.config,
            Request::FreeInputs => self.inputs,
            Request::FreeOutputs => self.outputs,
            Request::FreeOutput => self.output,
            Request::Return => self == (Live { output: true, ..Live::none() }),
            Request::Fail => self == Live::none(),
        }
    }

    /// The handles that are there after a request.
    pub open spec fn after(self, request: Request) -> Live {
        match request {
            Request::NewInputs => Live { inputs: true, ..self },
            Request::NewOutputs => Live { outputs: true, ..self },
            Request::NewConfig => Live { config: true, ..self },
            Request::NewOutput => Live { output: true, ..self },
            Request::FreeConfig => Live { config: false, ..self },
            Request::FreeInputs => Live { inputs: false, ..self },
            Request::FreeOutputs => Live { outputs: false, ..self },
            Request::FreeOutput => Live { output: false, ..self },
            _ => self,
        }
    }
}

/// From this request to its end, a call uses handles only while they are there, when those of
/// `live` are at first and the device answers each request with `answers(request)`.
pub open spec fn uses_live(call: KernelCall, answers: spec_fn(Request) -> i32, live: Live) -> bool
    decreases 14 + call.template_args - call.place(),
    when call.wf()
{
    &&& live.allows(call.request)
    &&& !call.is_over() ==> uses_live(
        call.after(answers(call.request)),
        answers,
        live.after(call.request),
    )
}

/// From template argument `i` on, a call sets each of them once and in order.
pub open spec fn sets_in_order(
    call: KernelCall,
    answers: spec_fn(Request) -> i32,
    i: usize,
) -> bool
    decreases 14 + call.template_args - call.place(),
    when call.wf()
{
    if call.is_over() {
        i == call.template_args
    } else {
        match call.request {
            Request::AddTemplateArg(j) => j == i && sets_in_order(
                call.after(answers(call.request)),
                answers,
                (i + 1) as usize,
            ),
            _ => sets_in_order(call.after(answers(call.request)), answers, i),
        }
    }
}

/// What follows the configuration uses handles only while they are there.
proof fn lemma_live_end(template_args: usize, ok: bool, answers: spec_fn(Request) -> i32)
    ensures
        uses_live(
            configured(template_args, ok),
            answers,
            Live { inputs: true, outputs: true, config: true, output: false },
        ),
        sets_in_order(configured(template_args, ok), answers, template_args),
{
    reveal_with_fuel(uses_live, 9);
    reveal_with_fuel(sets_in_order, 9);
}

/// What follows template argument `i` uses handles only while they are there.
proof fn lemma_live_args(
    i: usize,
    template_args: usize,
    failed: bool,
    answers: spec_fn(Request) -> i32,
)
    requires
        i < template_args,
    ensures
        ({
            let call = KernelCall { request: Request::AddTemplateArg(i), template_args, failed };
            let live = Live { inputs: true, outputs: true, config: true, output: false };
            uses_live(call, answers, live) && sets_in_order(call, answers, i)
        }),
    decreases template_args - i,
{
    let call = KernelCall { request: Request::AddTemplateArg(i), template_args, failed };
    let status = answers(Request::AddTemplateArg(i));
    assert(call.wf());
    let fails = failed || status != 0;
    if i + 1 < template_args {
        lemma_live_args((i + 1) as usize, template_args, fails, answers);
    } else {
        lemma_live_end(template_args, !fails, answers);
        assert(call.after(status) == configured(template_args, !fails));
    }
}

/// A call uses every handle only between its creation and its release, whatever the device
/// answers; at its end no handle is there but the result of a call that succeeds. It sets each
/// template argument once, in order.
pub proof fn lemma_uses(template_args: usize, answers: spec_fn(Request) -> i32)
    ensures
        uses_live(KernelCall::started(template_args), answers, Live::none()),
        sets_in_order(KernelCall::started(template_args), answers, 0),
{
    let failed = answers(Request::AddOutput) != 0 || answers(Request::SetGrid) != 0 || answers(
        Request::SetThreadGroup,
    ) != 0;
    if template_args > 0 {
        lemma_live_args(0, template_args, failed, answers);
    } else {
        lemma_live_end(template_args, !failed, answers);
    }
    reveal_with_fuel(uses_live, 7);
    reveal_with_fuel(sets_in_order, 7);
}

} // verus!
