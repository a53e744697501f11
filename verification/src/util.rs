//! Error values shared by the scanner and the expression traversal.

use vstd::prelude::*;

verus! {

/// A lexical or evaluation error.
///
/// `Scan` carries the 1-based source line on which the problem was found and
/// a human-readable message.  `Multi` aggregates every error found during one
/// pass, so a caller sees all problems at once rather than only the first.
#[derive(Debug, PartialEq, Eq)]
pub enum CrustCoreErr {
    Multi { errors: Vec<CrustCoreErr> },
    Scan { line: usize, message: String },
    Runtime,
}

/// The value of one recorded lexical error, as contracts speak of it.
pub struct ScanErrV {
    pub line: int,
    pub message: Seq<char>,
}

/// Holds when `e` is a single `Scan` error carrying exactly the line and
/// message of `v`.
pub open spec fn is_scan_err(e: CrustCoreErr, v: ScanErrV) -> bool {
    match e {
        CrustCoreErr::Scan { line, message } => line as int == v.line && message@ == v.message,
        _ => false,
    }
}

/// The recorded errors are exactly the given ones: pairwise single `Scan`
/// errors with matching line and message.
pub open spec fn errs_match(es: Seq<CrustCoreErr>, vs: Seq<ScanErrV>) -> bool {
    es.len() == vs.len() && forall|i: int| 0 <= i < es.len() ==> is_scan_err(#[trigger] es[i], vs[i])
}

pub type CrustCoreResult<T> = Result<T, CrustCoreErr>;

} // verus!
