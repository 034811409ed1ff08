//! Recovery of the HMAC secret behind a JSON Web Token, by wordlist or by
//! exhaustive enumeration over an alphabet, with every step stated and proved.
pub mod banner;
pub mod bytes;
pub mod cli;
pub mod crack;
pub mod keyspace;
pub mod oracle;
pub mod printing;
pub mod token;

pub use banner::{banner, VERSION};
pub use cli::{execute, parse_key_value, Cli, Commands, CrackJob, CrackMode, Task, UsageError, Workers};
pub use crack::{crack_bruteforce, crack_dictionary, candidate_from_line, run_job, verify_secret, CrackResult, Outcome};
pub use token::{decompose, Algorithm, CrackError, Token};
