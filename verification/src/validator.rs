//! The grammar checker: a stand-alone recursive-descent recogniser for the
//! Kang grammar.  It scans a source text (`scan`), reads the token stream
//! against the grammar (`recognize`), and reports for each file whether it
//! passes or where the first error is.

pub mod scan;
pub mod recognize;

use vstd::prelude::*;
use vstd::string::StringSliceAdditionalSpecFns;
use crate::text::{decimal, push_decimal, push_str, string_of};
use crate::validator::recognize::{err_is, error_text, stream_wf, v_program, ParseError, Parser, VR};
use crate::validator::scan::{lexed, scans, Lexer};

verus! {

/// Checks one source text: scans it and reads the whole token stream as a
/// program.  `Ok` exactly when the grammar accepts the stream; otherwise the
/// grammar's first error, with the line and column of its token.
pub fn check_source(source: &str) -> (r: Result<(), ParseError>)
    requires
        source.spec_bytes().len() < usize::MAX,
        scans(source@),
    ensures
        match v_program(lexed(source@)) {
            VR::Done(_) => r is Ok,
            VR::Failed(at, m) => r matches Err(e) && err_is(lexed(source@), e, at, m),
        },
{
    let mut lexer = Lexer::new(source);
    let tokens = lexer.tokenize();
    let mut parser = Parser::new(tokens);
    parser.parse_program()
}

/// Every text that scans gives a stream the recogniser takes: it ends in
/// the `Eof` token.
pub proof fn law_scanned_stream_is_complete(cs: Seq<char>)
    requires
        scans(cs),
    ensures
        stream_wf(lexed(cs)),
{
}

/// The report on one file: `PASS path`, or `FAIL path` and, on the next
/// line, indented, the error.
pub open spec fn report_text(path: Seq<char>, outcome: Result<(), ParseError>) -> Seq<char> {
    match outcome {
        Ok(()) => "PASS "@ + path,
        Err(e) => "FAIL "@ + path + "\n     "@ + error_text(e),
    }
}

pub fn file_report(path: &str, outcome: &Result<(), ParseError>) -> (r: String)
    ensures
        r@ == report_text(path@, *outcome),
{
    match outcome {
        Ok(()) => {
            let mut s = string_of("PASS ");
            push_str(&mut s, path);
            s
        },
        Err(e) => {
            let mut s = string_of("FAIL ");
            push_str(&mut s, path);
            push_str(&mut s, "\n     ");
            let d = e.describe();
            push_str(&mut s, d.as_str());
            s
        },
    }
}

/// The closing line: how many of the files passed.
pub fn summary(passed: usize, total: usize) -> (r: String)
    ensures
        r@ == "\n───\n"@ + decimal(passed as nat) + " / "@ + decimal(total as nat) + " files passed"@,
{
    let mut s = string_of("\n───\n");
    push_decimal(&mut s, passed);
    push_str(&mut s, " / ");
    push_decimal(&mut s, total);
    push_str(&mut s, " files passed");
    s
}

} // verus!
