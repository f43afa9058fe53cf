//! The four strings that a run is given.

use vstd::prelude::*;

verus! {

/// What a run works on: the identifier under which the fetched text is
/// stored, the location to fetch, the path to persist to and to read back,
/// and the pattern to scan for.
#[derive(Clone, Debug)]
pub struct Arguments {
    pub name: String,
    pub url: String,
    pub filename: String,
    pub pattern: String,
}

/// The number of strings that a run needs.
pub const EXPECTED_ARGUMENTS: usize = 4;

/// Takes the arguments of a run from the list that was given, in the order
/// name, url, filename, pattern. Any other number of strings than four is
/// refused, with the number that was given.
pub fn parse_args(args: &Vec<String>) -> (parsed: Result<Arguments, usize>)
    ensures
        args.len() == EXPECTED_ARGUMENTS <==> parsed is Ok,
        parsed matches Ok(a) ==> {
            &&& a.name@ == args[0]@
            &&& a.url@ == args[1]@
            &&& a.filename@ == args[2]@
            &&& a.pattern@ == args[3]@
        },
        parsed matches Err(given) ==> given == args.len(),
{
    if args.len() != EXPECTED_ARGUMENTS {
        return Err(args.len());
    }
    Ok(
        Arguments {
            name: args[0].clone(),
            url: args[1].clone(),
            filename: args[2].clone(),
            pattern: args[3].clone(),
        },
    )
}

} // verus!
