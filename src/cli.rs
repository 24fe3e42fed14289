//! The arguments of the command-line client.

use vstd::prelude::*;
use crate::text::{chars_of, index_from, matches_at, owned, parse_u32, parse_u32_spec, starts_with, find_char, string_from, lemma_index_from_bounds};

verus! {

/// The request the client makes.
#[derive(Clone, Debug)]
pub enum Action {
    /// List all plan sets.
    ListPlanSets,
    /// List the plans of a set.
    ListPlans { set: String },
    /// Show the details of a plan.
    ListPlan { name: String, set: String },
    /// List the runs held in memory.
    Plans,
    /// Show the log of a run.
    Status { id: u32 },
    /// Run a plan.
    Exec { name: String, set: String },
    /// Archive the log of a run.
    DumpHistory { id: u32 },
    /// Archive the logs of all runs.
    DumpAllHistory,
}

/// The client's command line.
#[derive(Clone, Debug)]
pub struct Args {
    /// What to do.
    pub action: Action,
    /// Where to connect: `<protocol>://<host>:<port>` with `http` or
    /// `https`, or `cfg://<name>` for a node of the configuration file.
    pub hostname: String,
    /// The configuration file that holds the nodes' connection details.
    pub config: String,
    /// Whether to report more on the connection.
    pub verbose: bool,
}

/// The port part of an address: what lies between its second and third
/// `:` (or its end), if it has two.
pub open spec fn port_part(s: Seq<char>) -> Option<Seq<char>> {
    let c1 = index_from(s, ':', 0);
    let c2 = index_from(s, ':', c1 + 1);
    if c1 >= s.len() || c2 >= s.len() {
        Option::None
    } else {
        Option::Some(s.subrange(c2 + 1, index_from(s, ':', c2 + 1)))
    }
}

pub open spec fn hostname_check(s: Seq<char>) -> Result<Seq<char>, Seq<char>> {
    let web = starts_with(s, "http://"@) || starts_with(s, "https://"@);
    if !web && !starts_with(s, "cfg://"@) {
        Err("Protocol for hostname can be http:// or https:// or cfg://. "@)
    } else if web {
        match port_part(s) {
            Option::None => Err("Port number is not specified after the hostname. "@),
            Option::Some(p) => match parse_u32_spec(p) {
                Option::None => Err("Failed to convert port number to numbers"@),
                Option::Some(n) => if n > 65535 {
                    Err("Port number can be between 0..65535"@)
                } else {
                    Ok(s)
                },
            },
        }
    } else {
        Ok(s)
    }
}

/// Checks the form of the address the client connects to.
pub fn check_hostname(s: &str) -> (r: Result<String, String>)
    ensures
        match hostname_check(s@) {
            Ok(t) => r matches Ok(v) && v@ == t,
            Err(e) => r matches Err(v) && v@ == e,
        },
{
    let v = chars_of(s);
    let web = matches_at(&v, &chars_of("http://"), 0) || matches_at(&v, &chars_of("https://"), 0);
    if !web && !matches_at(&v, &chars_of("cfg://"), 0) {
        return Err(owned("Protocol for hostname can be http:// or https:// or cfg://. "));
    }
    if web {
        let c1 = find_char(&v, ':', 0);
        if c1 >= v.len() {
            return Err(owned("Port number is not specified after the hostname. "));
        }
        let c2 = find_char(&v, ':', c1 + 1);
        if c2 >= v.len() {
            return Err(owned("Port number is not specified after the hostname. "));
        }
        let c3 = find_char(&v, ':', c2 + 1);
        proof {
            lemma_index_from_bounds(v@, ':', c2 + 1);
        }
        let port = string_from(&v, c2 + 1, c3);
        match parse_u32(port.as_str()) {
            None => {
                return Err(owned("Failed to convert port number to numbers"));
            },
            Some(n) => {
                if n > 65535 {
                    return Err(owned("Port number can be between 0..65535"));
                }
            },
        }
    }
    Ok(owned(s))
}

} // verus!
