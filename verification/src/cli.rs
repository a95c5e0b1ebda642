//! The command line of the query tool.

use vstd::prelude::*;
use serde_json::Value;
use crate::json::{
    json_error_message, json_error_text, json_value_accepts, json_value_of, parse_json_value,
};

verus! {

broadcast use vstd::string::group_string_axioms;

/// The message when no query is given.
pub open spec fn usage_message() -> Seq<char> {
    "Error: Query argument is required\n\nUsage:\n  query \"query { viewer { id name } }\""@
}

/// How a message about invalid variables starts: the text received; the
/// parser's own description of the fault follows.
pub open spec fn invalid_variables_prefix(received: Seq<char>) -> Seq<char> {
    "Error: Variables must be valid JSON\nReceived: "@ + received + "\nParse error: "@
}

/// Reads the command line (program name first): the query, and the
/// variables, parsed as JSON, when a second argument is given; further
/// arguments are ignored.
pub fn parse_args(args: &Vec<String>) -> (res: Result<(String, Option<Value>), String>)
    ensures
        args.len() < 2 ==> (res matches Err(m) && m@ == usage_message()),
        args.len() == 2 ==> (res matches Ok((q, v)) && q@ == args@[1]@ && v is None),
        args.len() > 2 && json_value_accepts(args@[2]@) ==> (res matches Ok((q, v)) && q@
            == args@[1]@ && v == Some(json_value_of(args@[2]@))),
        args.len() > 2 && !json_value_accepts(args@[2]@) ==> (res matches Err(m) && m@
            == invalid_variables_prefix(args@[2]@) + json_error_message(args@[2]@)),
{
    if args.len() < 2 {
        return Err(
            String::from_str(
                "Error: Query argument is required\n\nUsage:\n  query \"query { viewer { id name } }\"",
            ),
        );
    }
    let query = args[1].clone();
    if args.len() > 2 {
        match parse_json_value(args[2].as_str()) {
            Ok(parsed) => Ok((query, Some(parsed))),
            Err(e) => {
                let prefix = String::from_str("Error: Variables must be valid JSON\nReceived: ").concat(
                    args[2].as_str(),
                ).concat("\nParse error: ");
                Err(prefix.concat(json_error_text(&e).as_str()))
            },
        }
    } else {
        Ok((query, None))
    }
}

} // verus!
