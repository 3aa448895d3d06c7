//! The failures of the runtime and the stable form in which clients see them.
use vstd::prelude::*;

use crate::protocol::{ErrorCategory, ProtocolError};
use crate::string_map::StringMap;
use crate::text::concat;

verus! {

/// Why a request was refused, or why it failed.
#[derive(Debug, PartialEq, Eq)]
pub enum SandboxError {
    InvalidPolicy(String),
    CapabilityUnavailable(String),
    BackendUnavailable(String),
    Process(String),
    Protocol(String),
    Internal(String),
}

impl Clone for SandboxError {
    fn clone(&self) -> (r: Self)
        ensures
            r == *self,
    {
        match self {
            SandboxError::InvalidPolicy(m) => SandboxError::InvalidPolicy(m.clone()),
            SandboxError::CapabilityUnavailable(m) => SandboxError::CapabilityUnavailable(
                m.clone(),
            ),
            SandboxError::BackendUnavailable(m) => SandboxError::BackendUnavailable(m.clone()),
            SandboxError::Process(m) => SandboxError::Process(m.clone()),
            SandboxError::Protocol(m) => SandboxError::Protocol(m.clone()),
            SandboxError::Internal(m) => SandboxError::Internal(m.clone()),
        }
    }
}

/// The model of a [`SandboxError`]: its family and the text that explains it.
pub enum Fault {
    InvalidPolicy(Seq<char>),
    CapabilityUnavailable(Seq<char>),
    BackendUnavailable(Seq<char>),
    Process(Seq<char>),
    Protocol(Seq<char>),
    Internal(Seq<char>),
}

impl View for SandboxError {
    type V = Fault;

    open spec fn view(&self) -> Fault {
        match *self {
            SandboxError::InvalidPolicy(m) => Fault::InvalidPolicy(m@),
            SandboxError::CapabilityUnavailable(m) => Fault::CapabilityUnavailable(m@),
            SandboxError::BackendUnavailable(m) => Fault::BackendUnavailable(m@),
            SandboxError::Process(m) => Fault::Process(m@),
            SandboxError::Protocol(m) => Fault::Protocol(m@),
            SandboxError::Internal(m) => Fault::Internal(m@),
        }
    }
}

impl Fault {
    /// The stable code of the failure's family.
    pub open spec fn code(self) -> Seq<char> {
        match self {
            Fault::InvalidPolicy(_) => "SANDBOX_POLICY_INVALID"@,
            Fault::CapabilityUnavailable(_) => "SANDBOX_CAPABILITY_UNAVAILABLE"@,
            Fault::BackendUnavailable(_) => "SANDBOX_BACKEND_UNAVAILABLE"@,
            Fault::Process(_) => "SANDBOX_PROCESS_FAILED"@,
            Fault::Protocol(_) => "SANDBOX_PROTOCOL_ERROR"@,
            Fault::Internal(_) => "SANDBOX_INTERNAL_ERROR"@,
        }
    }

    pub open spec fn category(self) -> ErrorCategory {
        match self {
            Fault::InvalidPolicy(_) => ErrorCategory::PolicyViolation,
            Fault::CapabilityUnavailable(_) => ErrorCategory::Capability,
            Fault::BackendUnavailable(_) => ErrorCategory::Capability,
            Fault::Process(_) => ErrorCategory::Process,
            Fault::Protocol(_) => ErrorCategory::Protocol,
            Fault::Internal(_) => ErrorCategory::Internal,
        }
    }

    /// The sentence shown to a person.
    pub open spec fn message(self) -> Seq<char> {
        match self {
            Fault::InvalidPolicy(m) => "invalid policy: "@ + m,
            Fault::CapabilityUnavailable(m) => "requested capability is unavailable: "@ + m,
            Fault::BackendUnavailable(m) => "sandbox backend is unavailable: "@ + m,
            Fault::Process(m) => "process failed: "@ + m,
            Fault::Protocol(m) => "protocol error: "@ + m,
            Fault::Internal(m) => "internal sandbox error: "@ + m,
        }
    }

    /// Whether the same request may succeed later.
    pub open spec fn retryable(self) -> bool {
        self is BackendUnavailable || self is Process
    }
}

/// What a client sees of a failure.
pub open spec fn reports(error: ProtocolError, fault: Fault) -> bool {
    &&& error.code@ == fault.code()
    &&& error.category == fault.category()
    &&& error.retryable == fault.retryable()
    &&& error.message@ == fault.message()
    &&& error.details@ == Map::<Seq<char>, String>::empty()
}

/// The model of a result: the failure taken by its view.
pub open spec fn failure<T>(r: Result<T, SandboxError>) -> Option<Fault> {
    match r {
        Ok(_) => None,
        Err(e) => Some(e@),
    }
}

/// The first failure of a list of checks made in order.
pub open spec fn first_fault(faults: Seq<Option<Fault>>) -> Option<Fault>
    decreases faults.len(),
{
    if faults.len() == 0 {
        None
    } else if faults[0] is Some {
        faults[0]
    } else {
        first_fault(faults.drop_first())
    }
}

/// A failed check behind checks that passed is the first failure.
pub proof fn lemma_first_fault_at(faults: Seq<Option<Fault>>, at: int)
    requires
        0 <= at < faults.len(),
        faults[at] is Some,
        forall|i: int| 0 <= i < at ==> faults[i] is None,
    ensures
        first_fault(faults) == faults[at],
    decreases at,
{
    if at > 0 {
        lemma_first_fault_at(faults.drop_first(), at - 1);
    }
}

/// Where every check passes there is no first failure.
pub proof fn lemma_no_fault(faults: Seq<Option<Fault>>)
    requires
        forall|i: int| 0 <= i < faults.len() ==> faults[i] is None,
    ensures
        first_fault(faults) is None,
    decreases faults.len(),
{
    if faults.len() > 0 {
        lemma_no_fault(faults.drop_first());
    }
}

/// Where there is no first failure every check passes.
pub proof fn lemma_all_passed(faults: Seq<Option<Fault>>, at: int)
    requires
        first_fault(faults) is None,
        0 <= at < faults.len(),
    ensures
        faults[at] is None,
    decreases at,
{
    if at > 0 {
        lemma_all_passed(faults.drop_first(), at - 1);
    }
}

impl SandboxError {
    pub fn code(&self) -> (r: &'static str)
        ensures
            r@ == self@.code(),
    {
        match self {
            SandboxError::InvalidPolicy(_) => "SANDBOX_POLICY_INVALID",
            SandboxError::CapabilityUnavailable(_) => "SANDBOX_CAPABILITY_UNAVAILABLE",
            SandboxError::BackendUnavailable(_) => "SANDBOX_BACKEND_UNAVAILABLE",
            SandboxError::Process(_) => "SANDBOX_PROCESS_FAILED",
            SandboxError::Protocol(_) => "SANDBOX_PROTOCOL_ERROR",
            SandboxError::Internal(_) => "SANDBOX_INTERNAL_ERROR",
        }
    }

    pub fn category(&self) -> (r: ErrorCategory)
        ensures
            r == self@.category(),
    {
        match self {
            SandboxError::InvalidPolicy(_) => ErrorCategory::PolicyViolation,
            SandboxError::CapabilityUnavailable(_) => ErrorCategory::Capability,
            SandboxError::BackendUnavailable(_) => ErrorCategory::Capability,
            SandboxError::Process(_) => ErrorCategory::Process,
            SandboxError::Protocol(_) => ErrorCategory::Protocol,
            SandboxError::Internal(_) => ErrorCategory::Internal,
        }
    }

    /// The sentence shown to a person.
    pub fn message(&self) -> (r: String)
        ensures
            r@ == self@.message(),
    {
        match self {
            SandboxError::InvalidPolicy(m) => concat("invalid policy: ", m),
            SandboxError::CapabilityUnavailable(m) => concat(
                "requested capability is unavailable: ",
                m,
            ),
            SandboxError::BackendUnavailable(m) => concat("sandbox backend is unavailable: ", m),
            SandboxError::Process(m) => concat("process failed: ", m),
            SandboxError::Protocol(m) => concat("protocol error: ", m),
            SandboxError::Internal(m) => concat("internal sandbox error: ", m),
        }
    }

    pub fn protocol_error(&self) -> (r: ProtocolError)
        ensures
            reports(r, self@),
    {
        ProtocolError {
            code: self.code().to_owned(),
            category: self.category(),
            retryable: matches!(self, SandboxError::BackendUnavailable(_) | SandboxError::Process(_)),
            message: self.message(),
            details: StringMap::new(),
        }
    }

    pub fn invalid_policy(message: &str) -> (r: Self)
        ensures
            r@ == Fault::InvalidPolicy(message@),
    {
        SandboxError::InvalidPolicy(message.to_owned())
    }

    pub fn capability_unavailable(message: &str) -> (r: Self)
        ensures
            r@ == Fault::CapabilityUnavailable(message@),
    {
        SandboxError::CapabilityUnavailable(message.to_owned())
    }

    pub fn backend_unavailable(message: &str) -> (r: Self)
        ensures
            r@ == Fault::BackendUnavailable(message@),
    {
        SandboxError::BackendUnavailable(message.to_owned())
    }

    pub fn protocol(message: &str) -> (r: Self)
        ensures
            r@ == Fault::Protocol(message@),
    {
        SandboxError::Protocol(message.to_owned())
    }
}

/// A client can tell the families of failures apart by their codes, whatever the texts say; the
/// text is the end of what a person sees; and only failures of the backend or of a process may pass.
pub proof fn law_failures_are_told_apart(one: Fault, other: Fault)
    ensures
        one.code() == other.code() <==> {
            ||| one is InvalidPolicy && other is InvalidPolicy
            ||| one is CapabilityUnavailable && other is CapabilityUnavailable
            ||| one is BackendUnavailable && other is BackendUnavailable
            ||| one is Process && other is Process
            ||| one is Protocol && other is Protocol
            ||| one is Internal && other is Internal
        },
        one.code() == other.code() ==> one.category() == other.category() && one.retryable()
            == other.retryable(),
        one.code() == other.code() && one.message() == other.message() ==> one == other,
        one.category() == other.category() ==> one.code() == other.code() || (one.category()
            == ErrorCategory::Capability),
        one.retryable() <==> one.code() == "SANDBOX_BACKEND_UNAVAILABLE"@ || one.code()
            == "SANDBOX_PROCESS_FAILED"@,
{
    reveal_strlit("SANDBOX_POLICY_INVALID");
    reveal_strlit("SANDBOX_CAPABILITY_UNAVAILABLE");
    reveal_strlit("SANDBOX_BACKEND_UNAVAILABLE");
    reveal_strlit("SANDBOX_PROCESS_FAILED");
    reveal_strlit("SANDBOX_PROTOCOL_ERROR");
    reveal_strlit("SANDBOX_INTERNAL_ERROR");
    assert("SANDBOX_POLICY_INVALID"@[8] == 'P' && "SANDBOX_POLICY_INVALID"@[9] == 'O');
    assert("SANDBOX_CAPABILITY_UNAVAILABLE"@[8] == 'C');
    assert("SANDBOX_BACKEND_UNAVAILABLE"@[8] == 'B');
    assert("SANDBOX_PROCESS_FAILED"@[8] == 'P' && "SANDBOX_PROCESS_FAILED"@[9] == 'R'
        && "SANDBOX_PROCESS_FAILED"@[11] == 'C');
    assert("SANDBOX_PROTOCOL_ERROR"@[8] == 'P' && "SANDBOX_PROTOCOL_ERROR"@[9] == 'R'
        && "SANDBOX_PROTOCOL_ERROR"@[11] == 'T');
    assert("SANDBOX_INTERNAL_ERROR"@[8] == 'I');
    if one.code() == other.code() && one.message() == other.message() {
        lemma_same_text(one, other);
    }
}

proof fn lemma_same_text(one: Fault, other: Fault)
    requires
        one.code() == other.code(),
        one.message() == other.message(),
        one is InvalidPolicy <==> other is InvalidPolicy,
        one is CapabilityUnavailable <==> other is CapabilityUnavailable,
        one is BackendUnavailable <==> other is BackendUnavailable,
        one is Process <==> other is Process,
        one is Protocol <==> other is Protocol,
        one is Internal <==> other is Internal,
    ensures
        one == other,
{
    let front = match one {
        Fault::InvalidPolicy(_) => "invalid policy: "@,
        Fault::CapabilityUnavailable(_) => "requested capability is unavailable: "@,
        Fault::BackendUnavailable(_) => "sandbox backend is unavailable: "@,
        Fault::Process(_) => "process failed: "@,
        Fault::Protocol(_) => "protocol error: "@,
        Fault::Internal(_) => "internal sandbox error: "@,
    };
    let (m, n) = match (one, other) {
        (Fault::InvalidPolicy(m), Fault::InvalidPolicy(n)) => (m, n),
        (Fault::CapabilityUnavailable(m), Fault::CapabilityUnavailable(n)) => (m, n),
        (Fault::BackendUnavailable(m), Fault::BackendUnavailable(n)) => (m, n),
        (Fault::Process(m), Fault::Process(n)) => (m, n),
        (Fault::Protocol(m), Fault::Protocol(n)) => (m, n),
        (Fault::Internal(m), Fault::Internal(n)) => (m, n),
        _ => (front, front),
    };
    assert(one.message() == front + m);
    assert(other.message() == front + n);
    assert(m =~= (front + m).skip(front.len() as int));
    assert(n =~= (front + n).skip(front.len() as int));
}

} // verus!
