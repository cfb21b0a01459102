//! The signatures that the items of an application must have.

use vstd::prelude::*;

verus! {

/// The kinds of function in an application.
#[derive(Clone, Copy, Debug, PartialEq, Eq, Structural)]
pub enum Kind {
    Init,
    Idle,
    Interrupt,
    Task,
}

/// What a function returns.
#[derive(Clone, Copy, Debug, PartialEq, Eq, Structural)]
pub enum Output {
    /// No return type is written.
    Default,
    /// `-> ()`
    Unit,
    /// `-> !`
    Never,
    /// `-> init::LateResources`
    LateResources,
    /// Any other type.
    Other,
}

/// What the checks read of a function.
#[derive(Clone, Copy, Debug, PartialEq, Eq, Structural)]
pub struct Signature {
    /// No visibility is written.
    pub private: bool,
    pub is_const: bool,
    pub is_async: bool,
    pub is_unsafe: bool,
    /// An ABI is named.
    pub has_abi: bool,
    /// Type or lifetime parameters are declared.
    pub generic: bool,
    pub has_where: bool,
    pub variadic: bool,
    /// The number of parameters.
    pub inputs: usize,
    /// The first parameter is a pattern of the type `Context` of the
    /// function's own module.
    pub first_is_context: bool,
    /// Every other parameter is a pattern with a type, none is `self`.
    pub rest_named: bool,
    pub output: Output,
    /// The function is called `init`, `idle` or `resources`.
    pub reserved_name: bool,
}

/// Why a function is rejected.
#[derive(Clone, Copy, Debug, PartialEq, Eq, Structural)]
pub enum SignatureError {
    /// The function has not the signature that its kind asks for.
    BadSignature,
    /// A message input is not a named argument.
    UnnamedInput,
    /// A task or an interrupt task has a reserved name.
    ReservedName,
}

impl Signature {
    /// Private, neither `const`, `async` nor `unsafe`, with the Rust ABI,
    /// without type parameters, `where` clause or variadic arguments.
    pub open spec fn plain(self) -> bool {
        self.private && !self.is_const && !self.is_async && !self.has_abi && !self.is_unsafe
            && !self.generic && !self.has_where && !self.variadic
    }

    /// Whether the function returns nothing.
    pub open spec fn returns_unit(self) -> bool {
        self.output is Default || self.output is Unit
    }

    /// Whether the function has the form that `kind` asks for: plain, its
    /// context first, and
    /// - `init`: nothing else, returning nothing or the late resources;
    /// - `idle`: nothing else, never returning;
    /// - an interrupt task: nothing else, returning nothing;
    /// - a task: any inputs, returning nothing.
    pub open spec fn fits(self, kind: Kind) -> bool {
        &&& self.plain()
        &&& self.first_is_context
        &&& match kind {
            Kind::Init => self.inputs == 1 && (self.returns_unit() || self.output is LateResources),
            Kind::Idle => self.inputs == 1 && self.output is Never,
            Kind::Interrupt => self.inputs == 1 && self.returns_unit(),
            Kind::Task => self.inputs >= 1 && self.returns_unit(),
        }
    }

    /// What is wrong with the function, if anything: first its form, then
    /// the inputs of a task, then the name of a task or interrupt task.
    pub open spec fn fault(self, kind: Kind) -> Option<SignatureError> {
        if !self.fits(kind) {
            Some(SignatureError::BadSignature)
        } else if kind is Task && !self.rest_named {
            Some(SignatureError::UnnamedInput)
        } else if (kind is Task || kind is Interrupt) && self.reserved_name {
            Some(SignatureError::ReservedName)
        } else {
            None
        }
    }

    /// Whether an `init` of this signature hands out late resources: it
    /// does whenever a return type is written.
    pub open spec fn hands_out_late(self) -> bool {
        self.output is Unit || self.output is LateResources
    }

    /// Checks the function against what `kind` asks for.
    pub fn check(&self, kind: Kind) -> (r: Result<(), SignatureError>)
        ensures
            r is Ok <==> self.fault(kind) is None,
            r matches Err(e) ==> self.fault(kind) == Some(e),
    {
        let plain = self.private && !self.is_const && !self.is_async && !self.has_abi
            && !self.is_unsafe && !self.generic && !self.has_where && !self.variadic;
        let unit = match self.output {
            Output::Default | Output::Unit => true,
            _ => false,
        };
        let shape = match kind {
            Kind::Init => self.inputs == 1 && (unit || match self.output {
                Output::LateResources => true,
                _ => false,
            }),
            Kind::Idle => self.inputs == 1 && match self.output {
                Output::Never => true,
                _ => false,
            },
            Kind::Interrupt => self.inputs == 1 && unit,
            Kind::Task => self.inputs >= 1 && unit,
        };
        if !(plain && self.first_is_context && shape) {
            return Err(SignatureError::BadSignature);
        }
        match kind {
            Kind::Task => {
                if !self.rest_named {
                    return Err(SignatureError::UnnamedInput);
                }
                if self.reserved_name {
                    return Err(SignatureError::ReservedName);
                }
            },
            Kind::Interrupt => {
                if self.reserved_name {
                    return Err(SignatureError::ReservedName);
                }
            },
            _ => {},
        }
        Ok(())
    }

    /// Whether an `init` of this signature hands out late resources.
    pub fn returns_late_resources(&self) -> (b: bool)
        ensures
            b == self.hands_out_late(),
    {
        match self.output {
            Output::Unit | Output::LateResources => true,
            _ => false,
        }
    }
}

/// What the checks read of a statement of a function's body.
#[derive(Clone, Copy, Debug, PartialEq, Eq, Structural)]
pub enum Statement {
    /// `static mut NAME: T = ..;`
    StaticMut,
    /// Anything else, a `static` that is not `mut` too.
    Other,
}

/// Counts the `static mut` items that a body starts with: they are the
/// local state of the function, and the body proper begins behind them.
pub fn extract_statics(body: &Vec<Statement>) -> (n: usize)
    ensures
        n <= body@.len(),
        forall|i: int| 0 <= i < n ==> body@[i] is StaticMut,
        n < body@.len() ==> body@[n as int] is Other,
{
    let mut n: usize = 0;
    while n < body.len()
        invariant
            n <= body@.len(),
            forall|i: int| 0 <= i < n ==> body@[i] is StaticMut,
        decreases body@.len() - n,
    {
        match body[n] {
            Statement::StaticMut => {},
            Statement::Other => {
                return n;
            },
        }
        n = n + 1;
    }
    n
}

/// Why the local state of a function is rejected.
#[derive(Clone, Copy, Debug, PartialEq, Eq, Structural)]
pub enum StaticError {
    /// A `static` is marked as global in an application with one core.
    GlobalOnSingleCore,
    /// A `static` of a task is marked as global.
    GlobalInTask,
}

/// What is wrong with the local state of a function of `kind`, where
/// `global[i]` says whether its `static` number `i` is marked as global:
/// with one core no `static` of `init`, `idle` or a task may be; with
/// several cores no `static` of a task may be.
pub open spec fn statics_fault(kind: Kind, cores: u8, global: Seq<bool>) -> Option<StaticError> {
    if !global.contains(true) || kind is Interrupt {
        None
    } else if cores == 1 {
        Some(StaticError::GlobalOnSingleCore)
    } else if kind is Task {
        Some(StaticError::GlobalInTask)
    } else {
        None
    }
}

/// Checks the local state of a function.
pub fn check_statics(kind: Kind, cores: u8, global: &Vec<bool>) -> (r: Result<(), StaticError>)
    ensures
        r is Ok <==> statics_fault(kind, cores, global@) is None,
        r matches Err(e) ==> statics_fault(kind, cores, global@) == Some(e),
{
    let mut any = false;
    let mut i: usize = 0;
    while i < global.len()
        invariant
            i <= global@.len(),
            any <==> exists|j: int| 0 <= j < i && global@[j],
        decreases global@.len() - i,
    {
        if global[i] {
            any = true;
        }
        i = i + 1;
    }
    assert(any == global@.contains(true)) by {
        if any {
            let j = choose|j: int| 0 <= j < global@.len() && global@[j];
            assert(global@[j] == true);
        }
        if global@.contains(true) {
            let j = choose|j: int| 0 <= j < global@.len() && global@[j] == true;
            assert(global@[j]);
        }
    }
    if !any {
        return Ok(());
    }
    match kind {
        Kind::Interrupt => Ok(()),
        Kind::Task => {
            if cores == 1 {
                Err(StaticError::GlobalOnSingleCore)
            } else {
                Err(StaticError::GlobalInTask)
            }
        },
        _ => {
            if cores == 1 {
                Err(StaticError::GlobalOnSingleCore)
            } else {
                Ok(())
            }
        },
    }
}

} // verus!
