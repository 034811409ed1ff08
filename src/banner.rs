//! The start-up banner.
use vstd::prelude::*;

use vstd::string::StringExecFns;

verus! {

/// The version shown in the banner.
pub const VERSION: &'static str = "0.1.0";

/// The banner, one line per entry; the last line carries the version.
pub fn banner() -> (r: Vec<String>)
    ensures
        r@.len() == 6,
        r@[0]@ == "   d8p 8d8   d88 888888888          888  888 ,8b.     doooooo 888  ,dP "@,
        r@[1]@ == "   88p 888,o.d88    '88d     ______ 88888888 88'8o    d88     888o8P'  "@,
        r@[2]@ == "   88P 888P`Y8b8   '888      XXXXXX 88P  888 88PPY8.  d88     888 Y8L "@,
        r@[3]@ == "88888' 88P   YP8 '88p               88P  888 8b   `Y' d888888 888  `8p"@,
        r@[4]@ == "-------------------------"@,
        r@[5]@ == "Hack the JWT(JSON Web Token) | by @hahwul | "@ + VERSION@,
{
    let mut lines: Vec<String> = Vec::new();
    lines.push(String::from_str("   d8p 8d8   d88 888888888          888  888 ,8b.     doooooo 888  ,dP "));
    lines.push(String::from_str("   88p 888,o.d88    '88d     ______ 88888888 88'8o    d88     888o8P'  "));
    lines.push(String::from_str("   88P 888P`Y8b8   '888      XXXXXX 88P  888 88PPY8.  d88     888 Y8L "));
    lines.push(String::from_str("88888' 88P   YP8 '88p               88P  888 8b   `Y' d888888 888  `8p"));
    lines.push(String::from_str("-------------------------"));
    let mut last = String::from_str("Hack the JWT(JSON Web Token) | by @hahwul | ");
    last.append(VERSION);
    lines.push(last);
    lines
}

} // verus!
