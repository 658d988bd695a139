//! Windows job objects, which end the backends together with the proxy. The calls into the system
//! are on the caller's side; this is what their outcomes mean.

use crate::error::ProxyError;
use crate::text::{concat, decimal, u64_to_text};
use vstd::prelude::*;

verus! {

/// A job object with its handle. Its processes end when it is closed.
pub struct JobObject<H> {
    pub handle: H,
}

/// What came of creating a job object.
pub enum CreateOutcome<H> {
    /// A handle that can be used.
    Valid(H),
    /// A handle that cannot.
    Invalid,
    /// The call failed, for the reason given.
    Failed(String),
}

/// What came of setting up a job object that was created.
pub enum LimitOutcome {
    /// Its processes will end when it is closed.
    Limited,
    /// The call failed, for the reason given.
    Failed(String),
}

/// A job object that cannot be used: its handle is to be closed.
pub struct JobSetupFailure<H> {
    pub error: ProxyError,
    pub close: H,
}

/// What came of opening a process and putting it into a job object.
pub enum AssignOutcome {
    /// The process could not be opened, for the reason given.
    NotOpened(String),
    /// Opening it gave a handle that cannot be used.
    InvalidHandle,
    /// It is in the job object.
    Assigned,
    /// It was refused with a code of the system, for the reason given.
    Refused {
        code: u32,
        reason: String,
    },
}

/// The code with which a process is refused that often is in another job object already.
pub const ACCESS_DENIED: u32 = 5;

/// The code of the system in `hresult`, which wraps one where its upper half says so; any other
/// value stands for itself.
pub open spec fn system_code(hresult: u32) -> u32 {
    if hresult / 0x10000 == 0x8007 {
        (hresult % 0x10000) as u32
    } else {
        hresult
    }
}

/// The code of the system in `hresult`.
pub fn win32_code(hresult: u32) -> (res: u32)
    ensures
        res == system_code(hresult),
{
    if hresult / 0x10000 == 0x8007 {
        hresult % 0x10000
    } else {
        hresult
    }
}

/// Why the process `pid` is not in the job object, if it is not.
pub open spec fn assign_problem(pid: u32, outcome: AssignOutcome) -> Option<Seq<char>> {
    let pid = decimal(pid as nat);
    match outcome {
        AssignOutcome::NotOpened(reason) => Some(
            "OpenProcess failed for PID "@ + pid + ": "@ + reason@,
        ),
        AssignOutcome::InvalidHandle => Some(
            "OpenProcess returned invalid handle for PID "@ + pid,
        ),
        AssignOutcome::Assigned => None,
        AssignOutcome::Refused { code, reason } => Some(
            "AssignProcessToJobObject failed for PID "@ + pid + (if code == ACCESS_DENIED {
                " (process may already be in a job): "@
            } else {
                ": "@
            }) + reason@,
        ),
    }
}

impl<H> JobObject<H> {
    /// A new job object, once creating one gave `outcome`. It is yet to be set up.
    pub fn new(outcome: CreateOutcome<H>) -> (res: Result<JobObject<H>, ProxyError>)
        ensures
            match outcome {
                CreateOutcome::Valid(handle) => res == Ok::<JobObject<H>, ProxyError>(
                    JobObject { handle },
                ),
                CreateOutcome::Invalid => res matches Err(ProxyError::JobObjectError(message))
                    && message@ == "CreateJobObjectW returned invalid handle"@,
                CreateOutcome::Failed(reason) => res matches Err(
                    ProxyError::JobObjectError(message),
                ) && message@ == "CreateJobObjectW failed: "@ + reason@,
            },
    {
        match outcome {
            CreateOutcome::Valid(handle) => Ok(JobObject { handle }),
            CreateOutcome::Invalid => Err(
                ProxyError::JobObjectError("CreateJobObjectW returned invalid handle".to_string()),
            ),
            CreateOutcome::Failed(reason) => Err(
                ProxyError::JobObjectError(concat("CreateJobObjectW failed: ", reason.as_str())),
            ),
        }
    }

    /// The job object, once setting it up gave `outcome`.
    pub fn set_up(self, outcome: LimitOutcome) -> (res: Result<JobObject<H>, JobSetupFailure<H>>)
        ensures
            match outcome {
                LimitOutcome::Limited => res == Ok::<JobObject<H>, JobSetupFailure<H>>(self),
                LimitOutcome::Failed(reason) => {
                    &&& res is Err
                    &&& res->Err_0.close == self.handle
                    &&& res->Err_0.error is JobObjectError
                    &&& res->Err_0.error.text() == "SetInformationJobObject failed: "@ + reason@
                },
            },
    {
        match outcome {
            LimitOutcome::Limited => Ok(self),
            LimitOutcome::Failed(reason) => {
                let message = concat("SetInformationJobObject failed: ", reason.as_str());
                Err(
                    JobSetupFailure {
                        error: ProxyError::JobObjectError(message),
                        close: self.handle,
                    },
                )
            },
        }
    }

    /// Whether the process `pid` is in the job object, once putting it there gave `outcome`.
    pub fn assign_process_by_pid(&self, pid: u32, outcome: AssignOutcome) -> (res: Result<
        (),
        ProxyError,
    >)
        ensures
            match res {
                Ok(_) => assign_problem(pid, outcome) is None,
                Err(e) => e is JobObjectError && assign_problem(pid, outcome) == Some(e.text()),
            },
    {
        let pid = u64_to_text(pid as u64);
        match outcome {
            AssignOutcome::NotOpened(reason) => {
                let start = concat("OpenProcess failed for PID ", pid.as_str());
                let start = concat(start.as_str(), ": ");
                Err(ProxyError::JobObjectError(concat(start.as_str(), reason.as_str())))
            },
            AssignOutcome::InvalidHandle => Err(
                ProxyError::JobObjectError(
                    concat("OpenProcess returned invalid handle for PID ", pid.as_str()),
                ),
            ),
            AssignOutcome::Assigned => Ok(()),
            AssignOutcome::Refused { code, reason } => {
                let start = concat("AssignProcessToJobObject failed for PID ", pid.as_str());
                let start = if code == ACCESS_DENIED {
                    concat(start.as_str(), " (process may already be in a job): ")
                } else {
                    concat(start.as_str(), ": ")
                };
                Err(ProxyError::JobObjectError(concat(start.as_str(), reason.as_str())))
            },
        }
    }
}

/// A job object is there exactly where creating one gave a handle that can be used and setting it
/// up succeeded. One that was created and could not be set up gives its handle back, to be closed.
pub proof fn job_object_needs_both_steps<H>(
    created: CreateOutcome<H>,
    made: Result<JobObject<H>, ProxyError>,
    job: JobObject<H>,
    limited: LimitOutcome,
    res: Result<JobObject<H>, JobSetupFailure<H>>,
)
    requires
        call_ensures(JobObject::<H>::new, (created,), made),
        call_ensures(JobObject::<H>::set_up, (job, limited), res),
    ensures
        made is Ok <==> created is Valid,
        created matches CreateOutcome::Valid(handle) ==> made->Ok_0.handle == handle,
        created is Invalid ==> made->Err_0 is JobObjectError && made->Err_0.text()
            == "CreateJobObjectW returned invalid handle"@,
        created matches CreateOutcome::Failed(reason) ==> made->Err_0 is JobObjectError
            && made->Err_0.text() == "CreateJobObjectW failed: "@ + reason@,
        res is Ok <==> limited is Limited,
        res is Ok ==> res->Ok_0.handle == job.handle,
        limited matches LimitOutcome::Failed(reason) ==> res->Err_0.close == job.handle
            && res->Err_0.error is JobObjectError && res->Err_0.error.text()
            == "SetInformationJobObject failed: "@ + reason@,
{
}

/// A process is in the job object exactly where it was assigned. The message of a refusal names the
/// process, hints at another job object exactly for the code of a denied access, and ends with the
/// reason.
pub proof fn process_is_in_the_job_when_assigned<H>(
    job: &JobObject<H>,
    pid: u32,
    outcome: AssignOutcome,
    res: Result<(), ProxyError>,
    number: String,
)
    requires
        call_ensures(JobObject::<H>::assign_process_by_pid, (job, pid, outcome), res),
        call_ensures(u64_to_text, (pid as u64,), number),
    ensures
        res is Ok <==> outcome is Assigned,
        res is Err ==> res->Err_0 is JobObjectError,
        outcome matches AssignOutcome::NotOpened(reason) ==> res->Err_0.text()
            == "OpenProcess failed for PID "@ + number@ + ": "@ + reason@,
        outcome is InvalidHandle ==> res->Err_0.text()
            == "OpenProcess returned invalid handle for PID "@ + number@,
        outcome matches AssignOutcome::Refused { code, reason } ==> res->Err_0.text() == (if code
            == 5 {
            "AssignProcessToJobObject failed for PID "@ + number@
                + " (process may already be in a job): "@ + reason@
        } else {
            "AssignProcessToJobObject failed for PID "@ + number@ + ": "@ + reason@
        }),
{
}

/// A code of the system that is wrapped in the usual way comes out of its wrapping, and every value
/// that wraps none stays.
pub proof fn wrapped_code_comes_out(code: u32, wrapped: u32, res: u32)
    requires
        call_ensures(win32_code, (wrapped,), res),
    ensures
        code < 0x10000 && wrapped == 0x8007_0000 + code ==> res == code,
        !(0x8007_0000 <= wrapped <= 0x8007_ffff) ==> res == wrapped,
{
}

} // verus!
