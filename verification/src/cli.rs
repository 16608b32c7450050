//! Command-line argument parsing for the gateway binary.

use vstd::prelude::*;

verus! {

#[derive(Debug, Clone, PartialEq, Eq)]
pub enum CliCommand {
    Run { config_path: String },
    Install,
}

pub fn usage_line() -> (r: &'static str)
    ensures
        r@ == "Usage:\n  ai-gw-lite --config <path-to-config.yaml>\n  ai-gw-lite --install"@,
{
    "Usage:\n  ai-gw-lite --config <path-to-config.yaml>\n  ai-gw-lite --install"
}

/// `--install` alone installs; `--config <path>` runs against the
/// file; anything else is refused with the usage text.
pub fn parse_command(args: &Vec<String>) -> (r: Result<CliCommand, String>)
    ensures
        args@.len() == 1 && args@[0]@ == "--install"@ <==> (r matches Ok(c) && c is Install),
        args@.len() == 2 && args@[0]@ == "--config"@ <==> (r matches Ok(c) && (c matches
            CliCommand::Run { config_path } && config_path@ == args@[1]@)),
        r matches Err(msg) ==> msg@ == "invalid arguments.\n"@
            + "Usage:\n  ai-gw-lite --config <path-to-config.yaml>\n  ai-gw-lite --install"@,
{
    if args.len() == 1 && crate::text::str_eq(args[0].as_str(), "--install") {
        return Ok(CliCommand::Install);
    }
    if args.len() == 2 && crate::text::str_eq(args[0].as_str(), "--config") {
        return Ok(CliCommand::Run { config_path: args[1].clone() });
    }
    let mut msg = String::from_str("invalid arguments.\n");
    msg.append(usage_line());
    Err(msg)
}

} // verus!
