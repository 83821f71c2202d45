//! How a request is carried out, step by step.
//!
//! A request is handed to one model or, as a broadcast, to all of them, one after the
//! other. A model first sees the request and may answer it at once; else it is called
//! as the request demands, and the answer is sent. What a model does, and whether an
//! answer goes out, is up to the caller, who performs an [`Action`] and reports its
//! [`Outcome`].
use vstd::prelude::*;

use crate::error::{error_of_code, ErrorCode, ModbusError};
use crate::slave::answer::{
    answer, exception, finish_request, finished, quantities_fit, registers_answer, reply_fits,
    response, response_code, response_error, ModelReply, Reply,
};
use crate::slave::locks::{addresses_from, consecutive};
use crate::slave::plan::{
    addresses_fit, plan_request, planned, spans_fit, Call, ModelCall, Plan, Planned,
};
use crate::types::{Adu, AddressRange, ApplicationDataUnit, Ranges};
use crate::utils::copy_all;

verus! {

// ----- what follows from a model's word -----
/// An answer to send.
#[derive(Debug)]
pub struct SlaveReply {
    pub adu: ApplicationDataUnit,
    /// If sending fails, send the exception for that failure.
    pub report_failure: bool,
}

/// What a model has to do about a request next.
#[derive(Debug)]
pub enum NextStep {
    /// Nothing, and there is no answer.
    Ignore,
    /// Nothing; this is the answer.
    Reply(SlaveReply),
    /// Carry out this call.
    Call(ModelCall),
    /// Write holding registers, and then, if that succeeds, read some.
    WriteThenRead { write_address: u16, values: Vec<u16>, read_address: u16, read_length: u16 },
    /// Nothing; a handler of custom function codes answers.
    Custom,
}

/// The contents of a [`NextStep`].
pub enum Next {
    Ignore,
    Reply { adu: Adu, report_failure: bool },
    Call(Call),
    WriteThenRead { write_address: u16, values: Seq<u16>, read_address: u16, read_length: u16 },
    Custom,
}

impl View for NextStep {
    type V = Next;

    open spec fn view(&self) -> Next {
        match *self {
            NextStep::Ignore => Next::Ignore,
            NextStep::Reply(r) => Next::Reply { adu: r.adu@, report_failure: r.report_failure },
            NextStep::Call(call) => Next::Call(call@),
            NextStep::WriteThenRead { write_address, values, read_address, read_length } =>
            Next::WriteThenRead { write_address, values: values@, read_address, read_length },
            NextStep::Custom => Next::Custom,
        }
    }
}

/// What a model said when it saw a request.
pub open spec fn seen_of(seen: Result<Option<Vec<u8>>, ModbusError>) -> Result<
    Option<Seq<u8>>,
    ModbusError,
> {
    match seen {
        Ok(Some(data)) => Ok(Some(data@)),
        Ok(None) => Ok(None),
        Err(e) => Err(e),
    }
}

/// What a plan asks of a model.
pub open spec fn next_of_plan(adu: Adu, plan: Planned) -> Next {
    match plan {
        Planned::Ignore => Next::Ignore,
        Planned::Reject(code) => Next::Reply {
            adu: exception(adu, error_of_code(code)),
            report_failure: true,
        },
        Planned::Call(call) => Next::Call(call),
        Planned::WriteThenRead { write_address, values, read_address, read_length } =>
        Next::WriteThenRead { write_address, values, read_address, read_length },
        Planned::Custom => Next::Custom,
    }
}

/// What follows when a model with the addresses `ranges` has seen the request `adu`.
/// A request that reaches beyond the last address is refused.
pub open spec fn next_after_intercept(
    adu: Adu,
    seen: Result<Option<Seq<u8>>, ModbusError>,
    ranges: Ranges,
) -> Next {
    match seen {
        Ok(Some(data)) => Next::Reply { adu: answer(adu, data), report_failure: false },
        Err(e) => Next::Reply { adu: exception(adu, e), report_failure: false },
        Ok(None) => if spans_fit(adu) {
            next_of_plan(adu, planned(adu, ranges))
        } else {
            Next::Reply {
                adu: exception(adu, error_of_code(ErrorCode::IllegalDataAddress)),
                report_failure: true,
            }
        },
    }
}

/// What follows when a model has written the registers of a request that writes and
/// reads.
pub open spec fn next_after_write(
    adu: Adu,
    read_address: u16,
    read_length: u16,
    done: Result<(), ModbusError>,
) -> Next {
    match done {
        Ok(_) => Next::Call(
            Call::ReadHoldingRegisters { address: read_address, length: read_length },
        ),
        Err(e) => Next::Reply { adu: exception(adu, e), report_failure: true },
    }
}

/// What to do after a model has seen the request `adu`. If it answered or refused the
/// request itself, nothing else is asked of it.
pub fn after_intercept(
    adu: &ApplicationDataUnit,
    seen: Result<Option<Vec<u8>>, ModbusError>,
    range: &AddressRange,
) -> (r: NextStep)
    ensures
        r@ == next_after_intercept(adu@, seen_of(seen), range@),
{
    match seen {
        Ok(Some(data)) => NextStep::Reply(
            SlaveReply { adu: response(adu, data), report_failure: false },
        ),
        Err(e) => NextStep::Reply(
            SlaveReply { adu: response_error(adu, &e), report_failure: false },
        ),
        Ok(None) => {
            if !addresses_fit(adu) {
                return NextStep::Reply(
                    SlaveReply {
                        adu: response_code(adu, ErrorCode::IllegalDataAddress),
                        report_failure: true,
                    },
                );
            }
            match plan_request(adu, range) {
                Plan::Ignore => NextStep::Ignore,
                Plan::Reject(code) => NextStep::Reply(
                    SlaveReply { adu: response_code(adu, code), report_failure: true },
                ),
                Plan::Call(call) => NextStep::Call(call),
                Plan::WriteThenRead { write_address, values, read_address, read_length } =>
                NextStep::WriteThenRead { write_address, values, read_address, read_length },
                Plan::Custom => NextStep::Custom,
            }
        },
    }
}

/// What to do after a model has written the registers of the request `adu`, which
/// writes and reads: read, if the write succeeded.
pub fn after_write(
    adu: &ApplicationDataUnit,
    read_address: u16,
    read_length: u16,
    done: Result<(), ModbusError>,
) -> (r: NextStep)
    ensures
        r@ == next_after_write(adu@, read_address, read_length, done),
{
    match done {
        Ok(_) => NextStep::Call(
            ModelCall::ReadHoldingRegisters { address: read_address, length: read_length },
        ),
        Err(e) => NextStep::Reply(
            SlaveReply { adu: response_error(adu, &e), report_failure: true },
        ),
    }
}

// ----- actions and outcomes -----
/// What the caller has to do for a request.
#[derive(Debug)]
pub enum Action {
    /// Let the model of `unit` see the request, and ask for its address ranges.
    Intercept { unit: u8 },
    /// Have the model of `unit` carry out `call`, with the locks of the addresses
    /// `locks` held meanwhile.
    Call { unit: u8, call: ModelCall, locks: Vec<u16> },
    /// Have the handler of the request's function code answer `data`.
    Handle { data: Vec<u8> },
    /// Send this answer.
    Send(ApplicationDataUnit),
    /// Nothing more.
    Done,
}

/// The contents of an [`Action`].
pub enum Act {
    Intercept { unit: u8 },
    Call { unit: u8, call: Call, locks: Seq<u16> },
    Handle { data: Seq<u8> },
    Send(Adu),
    Done,
}

impl View for Action {
    type V = Act;

    open spec fn view(&self) -> Act {
        match *self {
            Action::Intercept { unit } => Act::Intercept { unit },
            Action::Call { unit, call, locks } => Act::Call { unit, call: call@, locks: locks@ },
            Action::Handle { data } => Act::Handle { data: data@ },
            Action::Send(adu) => Act::Send(adu@),
            Action::Done => Act::Done,
        }
    }
}

/// What came of an [`Action`].
#[derive(Debug)]
pub enum Outcome {
    /// What the model said when it saw the request, and its address ranges.
    Seen(Result<Option<Vec<u8>>, ModbusError>, AddressRange),
    /// What the model said to the call.
    Replied(ModelReply),
    /// What the handler gave.
    Handled(Result<Vec<u8>, ModbusError>),
    /// Whether the answer went out.
    Sent(Result<(), ModbusError>),
}

/// The contents of an [`Outcome`].
pub enum Heard {
    Seen(Result<Option<Seq<u8>>, ModbusError>, Ranges),
    Replied(Reply),
    Handled(Result<Seq<u8>, ModbusError>),
    Sent(Result<(), ModbusError>),
}

impl View for Outcome {
    type V = Heard;

    open spec fn view(&self) -> Heard {
        match *self {
            Outcome::Seen(seen, range) => Heard::Seen(seen_of(seen), range@),
            Outcome::Replied(reply) => Heard::Replied(reply@),
            Outcome::Handled(r) => Heard::Handled(
                match r {
                    Ok(data) => Ok(data@),
                    Err(e) => Err(e),
                },
            ),
            Outcome::Sent(r) => Heard::Sent(r),
        }
    }
}

// ----- the course of a request -----
/// Where a request stands: what is being waited for.
enum Stage {
    Asking,
    Calling(ModelCall),
    Writing { read_address: u16, read_length: u16 },
    Handling,
    Sending { report_failure: bool },
    Over,
}

/// The contents of a stage.
pub enum Waiting {
    /// The model sees the request.
    Asking,
    /// The model carries out the call that decides the answer.
    Calling(Call),
    /// The model writes; then it reads.
    Writing { read_address: u16, read_length: u16 },
    /// The handler answers.
    Handling,
    /// The answer is being sent.
    Sending { report_failure: bool },
    /// Nothing; the request is done.
    Over,
}

/// The state of a request.
pub struct Course {
    pub adu: Adu,
    /// The function code has a handler.
    pub has_handler: bool,
    /// The unit whose model has the request.
    pub unit: u8,
    /// The units whose models have it later.
    pub left: Seq<u8>,
    pub stage: Waiting,
}

/// A request that is being carried out.
pub struct RequestRun {
    adu: ApplicationDataUnit,
    has_handler: bool,
    unit: u8,
    units: Vec<u8>,
    next: usize,
    stage: Stage,
}

impl View for RequestRun {
    type V = Course;

    closed spec fn view(&self) -> Course {
        Course {
            adu: self.adu@,
            has_handler: self.has_handler,
            unit: self.unit,
            left: self.units@.skip(self.next as int),
            stage: match self.stage {
                Stage::Asking => Waiting::Asking,
                Stage::Calling(call) => Waiting::Calling(call@),
                Stage::Writing { read_address, read_length } => Waiting::Writing {
                    read_address,
                    read_length,
                },
                Stage::Handling => Waiting::Handling,
                Stage::Sending { report_failure } => Waiting::Sending { report_failure },
                Stage::Over => Waiting::Over,
            },
        }
    }
}

/// Go on to the next model, or be done.
pub open spec fn advanced(course: Course) -> (Course, Act) {
    if course.left.len() == 0 {
        (Course { stage: Waiting::Over, ..course }, Act::Done)
    } else {
        let unit = course.left[0];
        (
            Course { unit, left: course.left.drop_first(), stage: Waiting::Asking, ..course },
            Act::Intercept { unit },
        )
    }
}

/// The model is done; its answer is `adu`. A broadcast is not answered.
pub open spec fn replying(course: Course, adu: Adu, report_failure: bool) -> (Course, Act) {
    if course.adu.unit == 0 {
        advanced(course)
    } else {
        (Course { stage: Waiting::Sending { report_failure }, ..course }, Act::Send(adu))
    }
}

/// The addresses that a call needs for itself while it is carried out, since a model
/// may carry it out in several steps.
pub open spec fn call_locks(call: Call) -> Seq<u16> {
    match call {
        Call::MaskWriteRegister { address, and_mask, or_mask } => seq![address],
        _ => Seq::empty(),
    }
}

/// Go on with `next`.
pub open spec fn going_on(course: Course, next: Next) -> (Course, Act) {
    match next {
        Next::Ignore => advanced(course),
        Next::Reply { adu, report_failure } => replying(course, adu, report_failure),
        Next::Call(call) => (
            Course { stage: Waiting::Calling(call), ..course },
            Act::Call { unit: course.unit, call, locks: call_locks(call) },
        ),
        Next::WriteThenRead { write_address, values, read_address, read_length } => (
            Course { stage: Waiting::Writing { read_address, read_length }, ..course },
            Act::Call {
                unit: course.unit,
                call: Call::WriteMultipleRegisters { address: write_address, values },
                locks: consecutive(write_address, values.len()),
            },
        ),
        Next::Custom => if course.has_handler {
            (Course { stage: Waiting::Handling, ..course }, Act::Handle { data: course.adu.data })
        } else {
            replying(course, exception(course.adu, ModbusError::IllegalFunction), true)
        },
    }
}

/// The beginning of the request `adu` to the models of `units`, one after the other.
pub open spec fn begun(adu: Adu, has_handler: bool, units: Seq<u8>) -> (Course, Act) {
    advanced(Course { adu, has_handler, unit: adu.unit, left: units, stage: Waiting::Over })
}

/// The course of a request after what was `heard`, and what to do next.
pub open spec fn stepped(course: Course, heard: Heard) -> (Course, Act) {
    let adu = course.adu;
    match course.stage {
        Waiting::Asking => going_on(
            course,
            next_after_intercept(adu, heard->Seen_0, heard->Seen_1),
        ),
        Waiting::Calling(call) => replying(course, finished(adu, call, heard->Replied_0), true),
        Waiting::Writing { read_address, read_length } => going_on(
            course,
            next_after_write(adu, read_address, read_length, heard->Replied_0->Done_0),
        ),
        Waiting::Handling => match heard->Handled_0 {
            Ok(data) => replying(course, answer(adu, data), false),
            Err(e) => replying(course, exception(adu, e), false),
        },
        Waiting::Sending { report_failure } => match heard->Sent_0 {
            Ok(_) => advanced(course),
            Err(e) => if report_failure {
                (
                    Course { stage: Waiting::Sending { report_failure: false }, ..course },
                    Act::Send(exception(adu, e)),
                )
            } else {
                advanced(course)
            },
        },
        Waiting::Over => (course, Act::Done),
    }
}

/// What was heard is what is being waited for.
pub open spec fn expected(stage: Waiting, heard: Heard) -> bool {
    match stage {
        Waiting::Asking => heard is Seen,
        Waiting::Calling(call) => heard is Replied && reply_fits(call, heard->Replied_0),
        Waiting::Writing { read_address, read_length } => heard is Replied
            && heard->Replied_0 is Done,
        Waiting::Handling => heard is Handled,
        Waiting::Sending { report_failure } => heard is Sent,
        Waiting::Over => true,
    }
}

proof fn lemma_planned_fits(adu: Adu, ranges: Ranges)
    requires
        spans_fit(adu),
    ensures
        planned(adu, ranges) matches Planned::Call(call) ==> quantities_fit(call),
        planned(adu, ranges) matches Planned::WriteThenRead {
            write_address,
            values,
            read_address,
            read_length,
        } ==> write_address + values.len() <= 0x1_0000 && read_length * 2 <= u16::MAX,
{
}

/// The quantities of a step are small enough for what follows.
spec fn next_fits(next: Next) -> bool {
    match next {
        Next::Call(call) => quantities_fit(call),
        Next::WriteThenRead { write_address, values, read_address, read_length } => write_address
            + values.len() <= 0x1_0000 && read_length * 2 <= u16::MAX,
        _ => true,
    }
}

fn locks_of(call: &ModelCall) -> (r: Vec<u16>)
    ensures
        r@ == call_locks(call@),
{
    let mut locks: Vec<u16> = Vec::new();
    match call {
        ModelCall::MaskWriteRegister { address, and_mask: _, or_mask: _ } => {
            locks.push(*address);
        },
        _ => {},
    }
    assert(locks@ =~= call_locks(call@));
    locks
}

impl RequestRun {
    pub closed spec fn wf(&self) -> bool {
        &&& self.next <= self.units@.len()
        &&& match self.stage {
            Stage::Calling(call) => quantities_fit(call@),
            Stage::Writing { read_address, read_length } => read_length * 2 <= u16::MAX,
            _ => true,
        }
    }

    /// Begin to carry out the request `adu` with the models of `units`. `has_handler`
    /// tells whether its function code has a handler.
    pub fn begin(adu: ApplicationDataUnit, has_handler: bool, units: Vec<u8>) -> (r: (Self, Action))
        ensures
            r.0.wf(),
            (r.0@, r.1@) == begun(adu@, has_handler, units@),
    {
        let unit: u8 = adu.unit;
        let mut run = RequestRun { adu, has_handler, unit, units, next: 0, stage: Stage::Over };
        assert(run@.left =~= units@);
        let action: Action = run.advance();
        (run, action)
    }

    fn advance(&mut self) -> (r: Action)
        requires
            old(self).wf(),
        ensures
            final(self).wf(),
            (final(self)@, r@) == advanced(old(self)@),
    {
        if self.next >= self.units.len() {
            self.stage = Stage::Over;
            return Action::Done;
        }
        let unit: u8 = self.units[self.next];
        self.unit = unit;
        self.next = self.next + 1;
        self.stage = Stage::Asking;
        assert(self@.left =~= old(self)@.left.drop_first());
        Action::Intercept { unit }
    }

    fn reply(&mut self, adu: ApplicationDataUnit, report_failure: bool) -> (r: Action)
        requires
            old(self).wf(),
        ensures
            final(self).wf(),
            (final(self)@, r@) == replying(old(self)@, adu@, report_failure),
    {
        if self.adu.unit == 0 {
            return self.advance();
        }
        self.stage = Stage::Sending { report_failure };
        Action::Send(adu)
    }

    fn go_on(&mut self, next: NextStep) -> (r: Action)
        requires
            old(self).wf(),
            next_fits(next@),
        ensures
            final(self).wf(),
            (final(self)@, r@) == going_on(old(self)@, next@),
    {
        match next {
            NextStep::Ignore => self.advance(),
            NextStep::Reply(reply) => self.reply(reply.adu, reply.report_failure),
            NextStep::Call(call) => {
                let locks: Vec<u16> = locks_of(&call);
                self.stage = Stage::Calling(call.clone());
                Action::Call { unit: self.unit, call, locks }
            },
            NextStep::WriteThenRead { write_address, values, read_address, read_length } => {
                let locks: Vec<u16> = addresses_from(write_address, values.len());
                self.stage = Stage::Writing { read_address, read_length };
                Action::Call {
                    unit: self.unit,
                    call: ModelCall::WriteMultipleRegisters { address: write_address, values },
                    locks,
                }
            },
            NextStep::Custom => {
                if self.has_handler {
                    self.stage = Stage::Handling;
                    Action::Handle { data: copy_all(&self.adu.data) }
                } else {
                    let refused: ApplicationDataUnit = response_code(
                        &self.adu,
                        ErrorCode::IllegalFunction,
                    );
                    self.reply(refused, true)
                }
            },
        }
    }

    /// The last action was performed, with this outcome. Gives the next one.
    pub fn next(&mut self, outcome: Outcome) -> (r: Action)
        requires
            old(self).wf(),
            expected(old(self)@.stage, outcome@),
        ensures
            final(self).wf(),
            (final(self)@, r@) == stepped(old(self)@, outcome@),
    {
        match outcome {
            Outcome::Seen(seen, range) => match &self.stage {
                Stage::Asking => {
                    let next: NextStep = after_intercept(&self.adu, seen, &range);
                    proof {
                        if spans_fit(self.adu@) {
                            lemma_planned_fits(self.adu@, range@);
                        }
                    }
                    self.go_on(next)
                },
                _ => Action::Done,
            },
            Outcome::Replied(reply) => match &self.stage {
                Stage::Calling(call) => {
                    let adu: ApplicationDataUnit = finish_request(&self.adu, call, reply);
                    self.reply(adu, true)
                },
                Stage::Writing { read_address, read_length } => match reply {
                    ModelReply::Done(done) => {
                        let next: NextStep = after_write(
                            &self.adu,
                            *read_address,
                            *read_length,
                            done,
                        );
                        self.go_on(next)
                    },
                    _ => Action::Done,
                },
                _ => Action::Done,
            },
            Outcome::Handled(handled) => match &self.stage {
                Stage::Handling => {
                    let adu: ApplicationDataUnit = match handled {
                        Ok(data) => response(&self.adu, data),
                        Err(e) => response_error(&self.adu, &e),
                    };
                    self.reply(adu, false)
                },
                _ => Action::Done,
            },
            Outcome::Sent(sent) => match &self.stage {
                Stage::Sending { report_failure } => match sent {
                    Err(e) => {
                        if *report_failure {
                            self.stage = Stage::Sending { report_failure: false };
                            Action::Send(response_error(&self.adu, &e))
                        } else {
                            self.advance()
                        }
                    },
                    Ok(_) => self.advance(),
                },
                _ => Action::Done,
            },
        }
    }
}

// ----- laws -----
/// The course of a request from `start` on, after all that was `heard`.
pub open spec fn course_after(start: (Course, Act), heard: Seq<Heard>) -> (Course, Act)
    decreases heard.len(),
{
    if heard.len() == 0 {
        start
    } else {
        stepped(course_after(start, heard.drop_last()).0, heard.last())
    }
}

/// The units whose models were asked to see the request, from `start` on, in the order
/// in which they were.
pub open spec fn asked_units(start: (Course, Act), heard: Seq<Heard>) -> Seq<u8>
    decreases heard.len(),
{
    let before = if heard.len() == 0 {
        Seq::empty()
    } else {
        asked_units(start, heard.drop_last())
    };
    match course_after(start, heard).1 {
        Act::Intercept { unit } => before.push(unit),
        _ => before,
    }
}

/// The model that an action concerns.
pub open spec fn concerns(act: Act) -> Option<u8> {
    match act {
        Act::Intercept { unit } => Some(unit),
        Act::Call { unit, call, locks } => Some(unit),
        _ => None,
    }
}

/// What holds all along the course of the request `adu` to `units`.
spec fn on_course(course: Course, act: Act, adu: Adu, asked: Seq<u8>, units: Seq<u8>) -> bool {
    &&& course.adu == adu
    &&& asked + course.left == units
    &&& course.stage is Over <==> act is Done
    &&& course.stage is Over ==> course.left.len() == 0
    &&& !(course.stage is Over) ==> asked.len() > 0 && course.unit == asked.last()
    &&& concerns(act) matches Some(unit) ==> unit == course.unit
    &&& adu.unit == 0 ==> !(act is Send) && !(course.stage is Sending)
}

proof fn lemma_advanced_on_course(course: Course, adu: Adu, asked: Seq<u8>, units: Seq<u8>)
    requires
        course.adu == adu,
        asked + course.left == units,
    ensures
        ({
            let (after, act) = advanced(course);
            &&& act is Intercept ==> on_course(after, act, adu, asked.push(after.unit), units)
            &&& !(act is Intercept) ==> on_course(after, act, adu, asked, units)
            &&& act matches Act::Intercept { unit } ==> unit == after.unit
        }),
{
    if course.left.len() > 0 {
        assert(course.left =~= seq![course.left[0]] + course.left.drop_first());
        assert(asked.push(course.left[0]) + course.left.drop_first() =~= asked + course.left);
    }
}

proof fn lemma_on_course(
    adu: Adu,
    has_handler: bool,
    units: Seq<u8>,
    heard: Seq<Heard>,
)
    ensures
        ({
            let start = begun(adu, has_handler, units);
            let (course, act) = course_after(start, heard);
            on_course(course, act, adu, asked_units(start, heard), units)
        }),
    decreases heard.len(),
{
    let start = begun(adu, has_handler, units);
    if heard.len() == 0 {
        let first = Course { adu, has_handler, unit: adu.unit, left: units, stage: Waiting::Over };
        assert(Seq::<u8>::empty() + units =~= units);
        lemma_advanced_on_course(first, adu, Seq::empty(), units);
    } else {
        lemma_on_course(adu, has_handler, units, heard.drop_last());
        let (before, act) = course_after(start, heard.drop_last());
        let asked = asked_units(start, heard.drop_last());
        lemma_advanced_on_course(before, adu, asked, units);
    }
}

/// A request is handed to the models of `units`, one after the other, each one once:
/// those that were asked and those that are left are `units`, and when the request is
/// done, none is left. What is asked of a model is asked of the one that has the
/// request.
pub proof fn law_each_model_has_the_request_once(
    adu: Adu,
    has_handler: bool,
    units: Seq<u8>,
    heard: Seq<Heard>,
)
    ensures
        ({
            let start = begun(adu, has_handler, units);
            let (course, act) = course_after(start, heard);
            let asked = asked_units(start, heard);
            &&& asked + course.left == units
            &&& act is Done ==> asked == units
            &&& concerns(act) matches Some(unit) ==> asked.len() > 0 && unit == asked.last()
        }),
{
    lemma_on_course(adu, has_handler, units, heard);
    let start = begun(adu, has_handler, units);
    let asked = asked_units(start, heard);
    if course_after(start, heard).1 is Done {
        assert(asked + Seq::<u8>::empty() =~= asked);
    }
}

/// A broadcast is never answered, and a request without a model causes nothing at all.
pub proof fn law_no_answers_without_a_unit(
    adu: Adu,
    has_handler: bool,
    units: Seq<u8>,
    heard: Seq<Heard>,
)
    ensures
        adu.unit == 0 ==> !(course_after(begun(adu, has_handler, units), heard).1 is Send),
        units.len() == 0 ==> course_after(begun(adu, has_handler, units), heard).1 is Done,
{
    lemma_on_course(adu, has_handler, units, heard);
    if units.len() == 0 {
        let start = begun(adu, has_handler, units);
        let (course, act) = course_after(start, heard);
        let asked = asked_units(start, heard);
        assert((asked + course.left).len() == 0);
    }
}

/// A model is called, or a handler asked, in two situations only: when the model has
/// seen the request and left it alone, or to read after a successful write. So
/// whatever a model says when it sees a request comes before anything is done about
/// it, and a request that it answers or refuses itself is not carried out: the answer
/// is all that follows.
pub proof fn law_nothing_is_done_unseen(course: Course, heard: Heard)
    ensures
        ({
            let (after, act) = stepped(course, heard);
            act is Call || act is Handle ==> {
                ||| course.stage is Asking && heard->Seen_0 == Ok::<
                    Option<Seq<u8>>,
                    ModbusError,
                >(None)
                ||| course.stage is Writing && heard->Replied_0->Done_0 is Ok
            }
        }),
        course.stage is Asking && course.adu.unit != 0 ==> (heard->Seen_0 matches Ok(Some(data))
            ==> stepped(course, heard).1 == Act::Send(answer(course.adu, data))),
        course.stage is Asking && course.adu.unit != 0 ==> (heard->Seen_0 matches Err(e)
            ==> stepped(course, heard).1 == Act::Send(exception(course.adu, e))),
        course.stage is Asking && course.adu.unit == 0 && heard->Seen_0 != Ok::<
            Option<Seq<u8>>,
            ModbusError,
        >(None) ==> stepped(course, heard) == advanced(course),
{
}

/// A request that writes and reads registers is carried out in this order: first the
/// model writes, under the locks of the addresses it writes to. If that fails, the
/// failure is the answer. Else the model reads, and what it read is the answer.
pub proof fn law_writes_come_before_reads(
    course: Course,
    ranges: Ranges,
    write_address: u16,
    values: Seq<u16>,
    read_address: u16,
    read_length: u16,
    failure: ModbusError,
    registers: Result<Seq<u16>, ModbusError>,
)
    requires
        course.stage is Asking,
        course.adu.unit != 0,
        spans_fit(course.adu),
        planned(course.adu, ranges) == (Planned::WriteThenRead {
            write_address,
            values,
            read_address,
            read_length,
        }),
    ensures
        ({
            let (writing, first) = stepped(course, Heard::Seen(Ok(None), ranges));
            let (_, failed) = stepped(writing, Heard::Replied(Reply::Done(Err(failure))));
            let (reading, second) = stepped(writing, Heard::Replied(Reply::Done(Ok(()))));
            let (_, last) = stepped(reading, Heard::Replied(Reply::Registers(registers)));
            &&& first == Act::Call {
                unit: course.unit,
                call: Call::WriteMultipleRegisters { address: write_address, values },
                locks: consecutive(write_address, values.len()),
            }
            &&& failed == Act::Send(exception(course.adu, failure))
            &&& second == Act::Call {
                unit: course.unit,
                call: Call::ReadHoldingRegisters { address: read_address, length: read_length },
                locks: Seq::empty(),
            }
            &&& last == Act::Send(registers_answer(course.adu, read_length, registers))
        }),
{
}

/// How many steps a request can take from here at most.
pub open spec fn steps_left(course: Course) -> int {
    5 * course.left.len() + match course.stage {
        Waiting::Asking => 5int,
        Waiting::Writing { read_address, read_length } => 4int,
        Waiting::Calling(call) => 3int,
        Waiting::Handling => 3int,
        Waiting::Sending { report_failure } => if report_failure {
            2int
        } else {
            1int
        },
        Waiting::Over => 0int,
    }
}

/// Every step brings a request nearer to its end, so no model is asked the same twice.
pub proof fn law_requests_come_to_an_end(course: Course, heard: Heard)
    requires
        !(course.stage is Over),
    ensures
        0 <= steps_left(stepped(course, heard).0) < steps_left(course),
{
}

} // verus!
