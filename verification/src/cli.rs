//! Command-line options given as `--key value` pairs.
use vstd::prelude::*;
use vstd::string::StringExecFns;

verus! {

/// Splits `args` into `(key, value)` pairs: `args[0]` with `args[1]`,
/// `args[2]` with `args[3]`, and so on. A key without a value is refused with
/// "`<key>` requires a value".
pub fn parse_options(args: &Vec<String>) -> (r: Result<Vec<(String, String)>, String>)
    ensures
        r is Ok <==> args@.len() % 2 == 0,
        r matches Ok(pairs) ==> {
            &&& pairs@.len() * 2 == args@.len()
            &&& forall|i: int|
                0 <= i < pairs@.len() ==> (#[trigger] pairs@[i]).0@ == args@[2 * i]@ && pairs@[i].1@
                    == args@[2 * i + 1]@
        },
        r matches Err(e) ==> e@ == args@.last()@ + " requires a value"@,
{
    let mut pairs: Vec<(String, String)> = Vec::new();
    let mut index: usize = 0;
    while index < args.len()
        invariant
            index % 2 == 0,
            index <= args@.len(),
            pairs@.len() * 2 == index,
            forall|i: int|
                0 <= i < pairs@.len() ==> (#[trigger] pairs@[i]).0@ == args@[2 * i]@ && pairs@[i].1@
                    == args@[2 * i + 1]@,
        decreases args@.len() - index,
    {
        let key = &args[index];
        index = index + 1;
        if index >= args.len() {
            let message = key.clone().concat(" requires a value");
            return Err(message);
        }
        let value = &args[index];
        pairs.push((key.clone(), value.clone()));
        index = index + 1;
    }
    Ok(pairs)
}

} // verus!
