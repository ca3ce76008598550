//! The decisions of a run: listing or forwarding, and how a forwarded
//! invocation ends.
use vstd::prelude::*;

verus! {

/// What a run does, decided once from its arguments.
pub enum Mode {
    /// No arguments: print the catalog.
    Listing,
    /// Run the named binary with the remaining arguments.
    Dispatch(String, Vec<String>),
}

/// Chooses the mode of a run from its positional arguments: none means
/// listing; otherwise the first names the binary and the rest are handed
/// to it verbatim.
pub fn select_mode(args: &Vec<String>) -> (r: Mode)
    ensures
        args@.len() == 0 <==> r is Listing,
        r matches Mode::Dispatch(b, rest) ==> b == args@[0] && rest@ == args@.skip(1),
{
    if args.len() == 0 {
        return Mode::Listing;
    }
    let mut rest: Vec<String> = Vec::new();
    let mut i: usize = 1;
    while i < args.len()
        invariant
            1 <= i <= args@.len(),
            rest@ == args@.subrange(1, i as int),
        decreases args@.len() - i,
    {
        rest.push(args[i].clone());
        i = i + 1;
        assert(rest@ =~= args@.subrange(1, i as int));
    }
    assert(args@.subrange(1, args@.len() as int) =~= args@.skip(1));
    Mode::Dispatch(args[0].clone(), rest)
}

/// How a forwarded binary's run ended.
pub enum ChildOutcome {
    /// It could not be launched.
    LaunchFailed,
    /// It exited with this code.
    Exited(i32),
    /// It ended without an exit code, for instance by a signal.
    NoCode,
}

/// Exit code used when the forwarded binary gives none.
pub const FALLBACK_EXIT: i32 = 1;

/// The exit code of the dispatcher: the child's own, or the fallback.
pub fn exit_code(outcome: &ChildOutcome) -> (r: i32)
    ensures
        r == match outcome {
            ChildOutcome::Exited(c) => *c,
            _ => FALLBACK_EXIT,
        },
{
    match outcome {
        ChildOutcome::Exited(c) => *c,
        _ => FALLBACK_EXIT,
    }
}

/// The error reported when a binary cannot be launched.
pub open spec fn launch_error_text(binary: Seq<char>) -> Seq<char> {
    "failed to run "@ + binary
}

/// The error message naming a binary that could not be launched.
pub fn launch_error(binary: &str) -> (r: String)
    ensures
        r@ == launch_error_text(binary@),
{
    let mut r = String::from_str("failed to run ");
    r.append(binary);
    r
}

} // verus!
