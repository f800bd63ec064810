//! The tool's identifying banner line.

use vstd::prelude::*;
use vstd::string::StringExecFns;

verus! {

/// The banner line: tool name, version, and a one-line description.
pub open spec fn spec_title() -> Seq<char> {
    "tinymd (v0.1.0), a tiny markdown compiler"@
}

/// Builds the banner line shown before a conversion.
pub fn get_title() -> (r: String)
    ensures
        r@ == spec_title(),
{
    let mut the_title = String::new();
    the_title.append("tinymd");
    the_title.append(" (v");
    the_title.append("0.1.0");
    the_title.append("), ");
    the_title.append("a tiny markdown compiler");
    proof {
        reveal_strlit("tinymd (v0.1.0), a tiny markdown compiler");
        reveal_strlit("tinymd");
        reveal_strlit(" (v");
        reveal_strlit("0.1.0");
        reveal_strlit("), ");
        reveal_strlit("a tiny markdown compiler");
        assert(the_title@ =~= spec_title());
    }
    the_title
}

} // verus!
