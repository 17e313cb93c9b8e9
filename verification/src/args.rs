use vstd::prelude::*;

verus! {

/// The command line, once understood: the path of the transaction file.
#[derive(Debug, PartialEq)]
pub struct Args {
    pub transactions_file: String,
}

/// Read the command line: the first argument after the program name is the
/// transaction file; without one the run cannot start.
pub fn parse_args(args: Vec<String>) -> (r: Result<Args, String>)
    ensures
        args@.len() >= 2 ==> r is Ok && r->Ok_0.transactions_file@ == args@[1]@,
        args@.len() < 2 ==> r is Err && r->Err_0@ == "No transaction file provided"@,
{
    if args.len() >= 2 {
        Ok(Args { transactions_file: args[1].clone() })
    } else {
        Err("No transaction file provided".to_owned())
    }
}

} // verus!
