//! A whole run of a source text: parse it, check it, and run it only when
//! the checker accepts it.
use crate::ast::Program;
use crate::checker::{check_program_spec, reports, Checker, CheckerResult};
use crate::grammar::{program_lits_ok, program_parse_of, ParseError, ProgramParser};
use crate::interp::{Interpreter, RuntimeError};
use crate::semantics::run_program;
use crate::syntax::{lexed, program_at, Toks};
use crate::soundness::{accepted_program_can_run, accepted_program_has_no_type_mismatch};
use vstd::prelude::*;

verus! {

/// Why a source text does not run.
#[derive(Debug)]
pub enum SourceError {
    /// The text is not a program.
    Parse(ParseError),
    /// The checker found errors in the program.
    Rejected { program: Program, errors: CheckerResult },
}

/// `errors` are the checker's errors for `p`, whose text is `source`, in
/// order, each with its labels.
pub open spec fn rejected_with(p: Program, source: Seq<char>, errors: CheckerResult) -> bool {
    let found = check_program_spec(p);
    &&& found.diags.len() > 0
    &&& errors.errors@.len() == found.diags.len()
    &&& forall|k: int|
        0 <= k < errors.errors@.len() ==> reports(
            #[trigger] errors.errors@[k],
            found.diags[k],
            found.occs,
            source,
        )
}

/// `output` and `error` are what running `p` on `input` prints and ends with.
pub open spec fn finished_as(
    p: Program,
    input: Seq<char>,
    output: Seq<char>,
    error: Option<RuntimeError>,
) -> bool {
    let r = run_program(p, input);
    &&& output == r.1.out
    &&& error == match r.0 {
        Ok(_) => None,
        Err(e) => Some(e),
    }
}

/// What running a program on some input came to: what it printed, the
/// error that stopped it, if any, and whether it asked for a line past the
/// end of the input. A run that did not gives the same on any longer input
/// that continues after a line break.
#[derive(Debug, PartialEq)]
pub struct Outcome {
    pub output: String,
    pub error: Option<RuntimeError>,
    pub wanted_more_input: bool,
}

/// A parsed program that the checker accepts.
#[derive(Debug)]
pub struct CheckedProgram {
    program: Program,
}

impl CheckedProgram {
    #[verifier::type_invariant]
    spec fn accepted(self) -> bool {
        program_lits_ok(self.program) && check_program_spec(self.program).diags.len() == 0
    }

    /// The program itself.
    pub closed spec fn spec_program(self) -> Program {
        self.program
    }

    /// The program itself.
    pub fn program(&self) -> (r: &Program)
        ensures
            *r == self.spec_program(),
            program_lits_ok(*r),
            check_program_spec(*r).diags.len() == 0,
    {
        proof {
            use_type_invariant(self);
        }
        &self.program
    }

    /// Runs the program on `input`: what it prints, the error that stopped
    /// it, if any, and whether it asked for a line past the end of `input`.
    /// It never stops on a type mismatch.
    pub fn run(&self, input: &str) -> (r: Outcome)
        ensures
            finished_as(self.spec_program(), input@, r.output@, r.error),
            r.wanted_more_input == run_program(self.spec_program(), input@).1.starved,
            r.error != Some(RuntimeError::TypeMismatch),
    {
        proof {
            use_type_invariant(self);
            accepted_program_can_run(self.program);
            accepted_program_has_no_type_mismatch(self.program, input@);
        }
        let mut interp = Interpreter::new(&self.program, input);
        let result = interp.run(&self.program);
        let wanted_more_input = interp.read_past_end();
        let output = interp.flush();
        let error = match result {
            Ok(()) => None,
            Err(e) => Some(e),
        };
        Outcome { output, error, wanted_more_input }
    }
}

/// Parses `source` and checks the program: the program when the checker
/// accepts it, the parse error, or the program with the checker's errors.
pub fn check_source(source: &str) -> (r: Result<CheckedProgram, SourceError>)
    ensures
        r matches Ok(c) ==> program_parse_of(source@, Ok(c.spec_program())) && check_program_spec(
            c.spec_program(),
        ).diags.len() == 0,
        r matches Err(SourceError::Rejected { program, errors }) ==> program_parse_of(
            source@,
            Ok(program),
        ) && rejected_with(program, source@, errors),
        r matches Err(SourceError::Parse(e)) ==> program_parse_of(source@, Err(e)),
        r matches Err(SourceError::Parse(_)) ==> exists|tv: Toks|
            #[trigger] lexed(source@, tv) && forall|p: Program| !program_at(tv, p),
{
    let program = match ProgramParser::new().parse(source) {
        Ok(p) => p,
        Err(e) => {
            return Err(SourceError::Parse(e));
        },
    };
    match Checker::new().check_program(&program, source) {
        Err(errors) => Err(SourceError::Rejected { program, errors }),
        Ok(()) => Ok(CheckedProgram { program }),
    }
}

} // verus!
