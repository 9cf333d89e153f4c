//! Where the game keeps its data and logs, relative to the platform's data
//! directory.  Looking that base directory up is environment work and stays
//! with the unverified shell; the path arithmetic on top of it is verified.

use vstd::prelude::*;
use vstd::string::StringExecFns;

verus! {

/// The data directory: the application's own folder inside the platform
/// data directory.
pub fn data_dir(base: &str, app: &str) -> (r: String)
    ensures
        r@ == base@ + seq!['/'] + app@,
{
    proof {
        reveal_strlit("/");
    }
    let mut out = base.to_owned();
    out.append("/");
    out.append(app);
    proof {
        assert(out@ =~= base@ + seq!['/'] + app@);
    }
    out
}

/// The log directory: the `logs` folder inside the data directory.
pub fn log_dir(base: &str, app: &str) -> (r: String)
    ensures
        r@ == base@ + seq!['/'] + app@ + seq!['/', 'l', 'o', 'g', 's'],
{
    proof {
        reveal_strlit("/logs");
    }
    let mut out = data_dir(base, app);
    out.append("/logs");
    proof {
        assert(out@ =~= base@ + seq!['/'] + app@ + seq!['/', 'l', 'o', 'g', 's']);
    }
    out
}

} // verus!
