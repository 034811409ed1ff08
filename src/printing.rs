//! The large start-up banner.
use vstd::prelude::*;

use vstd::string::StringExecFns;

use crate::banner::VERSION;

verus! {

/// The large banner, one line per entry: six lines of block letters, the
/// title with the version, and the project link.
pub fn banner() -> (r: Vec<String>)
    ensures
        r@.len() == 8,
        r@[0]@ == "      ██╗██╗    ██╗████████╗      ██╗  ██╗ █████╗  ██████╗██╗  ██╗"@,
        r@[1]@ == "      ██║██║    ██║╚══██╔══╝      ██║  ██║██╔══██╗██╔════╝██║ ██╔╝"@,
        r@[2]@ == "      ██║██║ █╗ ██║   ██║         ███████║███████║██║     █████╔╝ "@,
        r@[3]@ == " ██   ██║██║███╗██║   ██║         ██╔══██║██╔══██║██║     ██╔═██╗ "@,
        r@[4]@ == " ╚█████╔╝╚███╔███╔╝   ██║         ██║  ██║██║  ██║╚██████╗██║  ██╗"@,
        r@[5]@ == "  ╚════╝  ╚══╝╚══╝    ╚═╝         ╚═╝  ╚═╝╚═╝  ╚═╝ ╚═════╝╚═╝  ╚═╝"@,
        r@[6]@ == "          JSON Web Token Hack Toolkit - "@ + VERSION@ + " by @hahwul"@,
        r@[7]@ == "          https://github.com/hahwul/jwt-hack"@,
{
    let mut lines: Vec<String> = Vec::new();
    lines.push(String::from_str("      ██╗██╗    ██╗████████╗      ██╗  ██╗ █████╗  ██████╗██╗  ██╗"));
    lines.push(String::from_str("      ██║██║    ██║╚══██╔══╝      ██║  ██║██╔══██╗██╔════╝██║ ██╔╝"));
    lines.push(String::from_str("      ██║██║ █╗ ██║   ██║         ███████║███████║██║     █████╔╝ "));
    lines.push(String::from_str(" ██   ██║██║███╗██║   ██║         ██╔══██║██╔══██║██║     ██╔═██╗ "));
    lines.push(String::from_str(" ╚█████╔╝╚███╔███╔╝   ██║         ██║  ██║██║  ██║╚██████╗██║  ██╗"));
    lines.push(String::from_str("  ╚════╝  ╚══╝╚══╝    ╚═╝         ╚═╝  ╚═╝╚═╝  ╚═╝ ╚═════╝╚═╝  ╚═╝"));
    let mut title = String::from_str("          JSON Web Token Hack Toolkit - ");
    title.append(VERSION);
    title.append(" by @hahwul");
    lines.push(title);
    lines.push(String::from_str("          https://github.com/hahwul/jwt-hack"));
    lines
}

} // verus!
