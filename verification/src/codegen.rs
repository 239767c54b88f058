//! The rules by which a free-standing function is turned into a handler.

use vstd::prelude::*;
use vstd::string::StringSliceAdditionalSpecFns;
use crate::bytes::range_eq;

verus! {

/// How a function handles a request.
#[derive(Debug, Copy, Clone, PartialEq, Eq, Structural)]
pub enum HandlerMode {
    /// It returns its value at once.
    Ready,
    /// It returns a future.
    Async,
    /// It is written with `await`.
    AsyncAwait,
}

/// Whether a byte is ASCII white space.
pub open spec fn is_space(b: u8) -> bool {
    b == 0x20 || (0x09 <= b <= 0x0d)
}

/// The first place in `s[a..]` that holds no white space, or the end.
pub open spec fn space_end(s: Seq<u8>, a: int) -> int
    decreases s.len() - a,
{
    if 0 <= a < s.len() && is_space(s[a]) {
        space_end(s, a + 1)
    } else {
        a
    }
}

/// The place after the last one in `s[a..b]` that holds no white space, or
/// `a`.
pub open spec fn space_start(s: Seq<u8>, a: int, b: int) -> int
    decreases b - a,
{
    if 0 <= a < b <= s.len() && is_space(s[b - 1]) {
        space_start(s, a, b - 1)
    } else {
        b
    }
}

/// The text without the ASCII white space around it.
pub open spec fn trim(s: Seq<u8>) -> Seq<u8> {
    let a = space_end(s, 0);
    if a >= s.len() {
        Seq::empty()
    } else {
        s.subrange(a, space_start(s, a, s.len() as int))
    }
}

/// The mode that the text of an attribute names: none or `ready`, `async`,
/// or `await`.
pub open spec fn mode_named(s: Seq<u8>) -> Option<HandlerMode> {
    let t = trim(s);
    if t.len() == 0 || t == "ready".spec_bytes() {
        Some(HandlerMode::Ready)
    } else if t == "async".spec_bytes() {
        Some(HandlerMode::Async)
    } else if t == "await".spec_bytes() {
        Some(HandlerMode::AsyncAwait)
    } else {
        None
    }
}

/// Why a function cannot be a handler in its mode.
#[derive(Debug, Copy, Clone, PartialEq, Eq, Structural)]
pub enum HandlerError {
    /// The function takes more than one argument.
    TooManyArguments,
    /// The function is written with `await` and takes an argument.
    ArgumentsInAwait,
}

/// Whether a function with `num_inputs` arguments can be a handler in
/// `mode`.
pub open spec fn validated(mode: HandlerMode, num_inputs: usize) -> Result<(), HandlerError> {
    if num_inputs > 1 {
        Err(HandlerError::TooManyArguments)
    } else if mode == HandlerMode::AsyncAwait && num_inputs != 0 {
        Err(HandlerError::ArgumentsInAwait)
    } else {
        Ok(())
    }
}

impl HandlerMode {
    /// Reads the mode from the text of an attribute.  The white space that
    /// is trimmed is that of ASCII.
    pub fn from_str(s: &str) -> (r: Option<HandlerMode>)
        ensures
            r == mode_named(s.spec_bytes()),
    {
        let bytes = s.as_bytes();
        let mut a: usize = 0;
        while a < bytes.len() && (bytes[a] == 0x20 || (0x09 <= bytes[a] && bytes[a] <= 0x0d))
            invariant
                a <= bytes@.len(),
                space_end(bytes@, 0) == space_end(bytes@, a as int),
            decreases bytes@.len() - a,
        {
            a = a + 1;
        }
        if a >= bytes.len() {
            return Some(HandlerMode::Ready);
        }
        let mut b: usize = bytes.len();
        while a < b && (bytes[b - 1] == 0x20 || (0x09 <= bytes[b - 1] && bytes[b - 1] <= 0x0d))
            invariant
                a <= b <= bytes@.len(),
                space_start(bytes@, a as int, bytes@.len() as int) == space_start(
                    bytes@,
                    a as int,
                    b as int,
                ),
            decreases b - a,
        {
            b = b - 1;
        }
        if a == b {
            assert(bytes@.subrange(a as int, b as int) =~= Seq::empty());
            Some(HandlerMode::Ready)
        } else if range_eq(bytes, a, b, "ready".as_bytes()) {
            Some(HandlerMode::Ready)
        } else if range_eq(bytes, a, b, "async".as_bytes()) {
            Some(HandlerMode::Async)
        } else if range_eq(bytes, a, b, "await".as_bytes()) {
            Some(HandlerMode::AsyncAwait)
        } else {
            None
        }
    }

    /// Checks that a function with `num_inputs` arguments can be a handler
    /// in this mode.
    pub fn validate(self, num_inputs: usize) -> (r: Result<(), HandlerError>)
        ensures
            r == validated(self, num_inputs),
    {
        if num_inputs > 1 {
            return Err(HandlerError::TooManyArguments);
        }
        if self == HandlerMode::AsyncAwait && num_inputs != 0 {
            return Err(HandlerError::ArgumentsInAwait);
        }
        Ok(())
    }

    /// Whether the handler that is generated reads its input: one that
    /// returns a future and takes no argument does not.
    pub fn uses_input(self, num_inputs: usize) -> (b: bool)
        ensures
            b == !(num_inputs == 0 && self != HandlerMode::Ready),
    {
        !(num_inputs == 0 && self != HandlerMode::Ready)
    }
}

/// How the value of the function becomes the result of the handler.
#[derive(Debug, Copy, Clone, PartialEq, Eq, Structural)]
pub enum HandlerBody {
    /// The value is turned into a response at once.
    Respond,
    /// The value is a future whose output is turned into a response.
    AsyncResponder,
}

/// What is generated around a function to make it a handler.
#[derive(Debug, Copy, Clone, PartialEq, Eq, Structural)]
pub struct HandlerPlan {
    /// Whether the handler reads its input.
    pub uses_input: bool,
    /// Whether the input is passed on to the function.
    pub passes_input: bool,
    /// How the value of the function becomes the result.
    pub body: HandlerBody,
    /// Whether the function is marked as written with `await`, and the
    /// prelude for that is brought in.
    pub marks_async: bool,
}

/// What is generated around a function with `num_inputs` arguments in
/// `mode`.
pub open spec fn planned(mode: HandlerMode, num_inputs: usize) -> HandlerPlan {
    HandlerPlan {
        uses_input: !(num_inputs == 0 && mode != HandlerMode::Ready),
        passes_input: num_inputs == 1,
        body: if mode == HandlerMode::Ready {
            HandlerBody::Respond
        } else {
            HandlerBody::AsyncResponder
        },
        marks_async: mode == HandlerMode::AsyncAwait,
    }
}

impl HandlerMode {
    /// Plans what is generated around a function that has passed
    /// `validate`.
    pub fn plan(self, num_inputs: usize) -> (p: HandlerPlan)
        requires
            validated(self, num_inputs).is_ok(),
        ensures
            p == planned(self, num_inputs),
    {
        HandlerPlan {
            uses_input: self.uses_input(num_inputs),
            passes_input: num_inputs == 1,
            body: match self {
                HandlerMode::Ready => HandlerBody::Respond,
                _ => HandlerBody::AsyncResponder,
            },
            marks_async: self == HandlerMode::AsyncAwait,
        }
    }
}

impl HandlerError {
    /// The message of the error.
    pub fn message(&self) -> (m: &'static str)
        ensures
            m@ == (match *self {
                HandlerError::TooManyArguments => "Too many arguments"@,
                HandlerError::ArgumentsInAwait => "The number of arguments in #[async] handler must be zero."@,
            }),
    {
        match self {
            HandlerError::TooManyArguments => "Too many arguments",
            HandlerError::ArgumentsInAwait => "The number of arguments in #[async] handler must be zero.",
        }
    }
}

} // verus!
