//! The node-side command line: run the agent with a configuration, print the product
//! information, or normalise a label.
use vstd::prelude::*;
use crate::app::{normalize_device_label, summary};
use crate::cli::args_view;
use crate::text::{chars_of, eq_str, trim};

verus! {

/// A command of the node-side tool.
#[derive(Debug, Clone)]
pub enum AgentCommand {
    Run { config_path: String },
    Info,
    NormalizeLabel { value: String },
}

/// The plain value of a node-side command.
pub enum AgentCommandView {
    Run { config_path: Seq<char> },
    Info,
    NormalizeLabel { value: Seq<char> },
}

impl View for AgentCommand {
    type V = AgentCommandView;

    open spec fn view(&self) -> AgentCommandView {
        match self {
            AgentCommand::Run { config_path } => AgentCommandView::Run { config_path: config_path@ },
            AgentCommand::Info => AgentCommandView::Info,
            AgentCommand::NormalizeLabel { value } => AgentCommandView::NormalizeLabel { value: value@ },
        }
    }
}

/// The usage line shown for anything the tool does not read.
pub open spec fn usage_spec() -> Seq<char> {
    "usage: medium [join <invite> | pair --server <url> --device <name> | devices | ssh sync [--write-main-config] | proxy ssh --device <name> | run --config <path> | info | normalize-label <value>]"@
}

/// The grammar: `run --config <path>`, `info`, `normalize-label <value>`; `a[0]` is the program.
pub open spec fn agent_parse_spec(a: Seq<Seq<char>>) -> Result<AgentCommandView, Seq<char>> {
    if a.len() == 4 && a[1] == "run"@ && a[2] == "--config"@ {
        Ok(AgentCommandView::Run { config_path: a[3] })
    } else if a.len() == 2 && a[1] == "info"@ {
        Ok(AgentCommandView::Info)
    } else if a.len() == 3 && a[1] == "normalize-label"@ {
        Ok(AgentCommandView::NormalizeLabel { value: a[2] })
    } else {
        Err(usage_spec())
    }
}

fn is(arg: &String, lit: &str) -> (r: bool)
    ensures
        r == (arg@ == lit@),
{
    let c = chars_of(arg.as_str());
    eq_str(&c, lit)
}

/// Reads the node-side command line (see `agent_parse_spec`).
pub fn parse(args: &[String]) -> (r: Result<AgentCommand, String>)
    ensures
        match agent_parse_spec(args_view(args@)) {
            Ok(c) => r matches Ok(cmd) && cmd@ == c,
            Err(m) => r matches Err(s) && s@ == m,
        },
{
    let ghost a = args_view(args@);
    let n = args.len();
    assert(a.len() == n);
    assert(forall|k: int| 0 <= k < n ==> #[trigger] a[k] == args@[k]@);
    if n == 4 && is(&args[1], "run") && is(&args[2], "--config") {
        return Ok(AgentCommand::Run { config_path: args[3].clone() });
    }
    if n == 2 && is(&args[1], "info") {
        return Ok(AgentCommand::Info);
    }
    if n == 3 && is(&args[1], "normalize-label") {
        return Ok(AgentCommand::NormalizeLabel { value: args[2].clone() });
    }
    Err("usage: medium [join <invite> | pair --server <url> --device <name> | devices | ssh sync [--write-main-config] | proxy ssh --device <name> | run --config <path> | info | normalize-label <value>]".to_string())
}

/// The output of `info` and `normalize-label`; `None` for `run`, which starts the agent.
pub fn immediate_output(command: &AgentCommand) -> (r: Option<String>)
    ensures
        match command@ {
            AgentCommandView::Info => r matches Some(s) && s@ == "Medium CLI"@,
            AgentCommandView::NormalizeLabel { value } => r matches Some(s) && s@ == trim(value),
            AgentCommandView::Run { .. } => r is None,
        },
{
    match command {
        AgentCommand::Info => Some(summary().to_string()),
        AgentCommand::NormalizeLabel { value } => Some(normalize_device_label(value.as_str())),
        AgentCommand::Run { .. } => None,
    }
}

} // verus!
