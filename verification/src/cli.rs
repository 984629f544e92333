//! Command-line argument handling: the argument record, the command variants,
//! and a flag-matching parser over plain argument strings.

use vstd::prelude::*;
use vstd::string::*;
use crate::strutil::str_eq;

verus! {

/// What the user asked for on the command line.
pub struct CliArgs {
    /// Enable verbose logging.
    pub verbose: bool,
    /// Suppress non-essential output.
    pub quiet: bool,
    pub command: Option<Command>,
}

/// The command variants.
pub enum Command {
    /// Execute a single prompt against one provider.
    Execute {
        provider: String,
        prompt: String,
        api_key: Option<String>,
        context: Option<String>,
        no_stream: bool,
    },
    /// Execute a pipeline chain.
    Pipeline { chain: String, context: Option<String>, no_stream: bool },
    /// List the available providers.
    ListProviders,
    /// Check authentication for one provider.
    CheckAuth { provider: String },
    /// Show version information.
    Version,
}

/// The fields of an `Execute` command, flattened for callers.
pub struct ExecuteCommand {
    pub provider: String,
    pub prompt: String,
    pub api_key: Option<String>,
    pub context: Option<String>,
    pub stream: bool,
    pub no_stream: bool,
}

impl ExecuteCommand {
    /// Assemble from the command's fields; `stream` is the negation of
    /// `no_stream`.
    pub fn from_command(
        provider: String,
        prompt: String,
        api_key: Option<String>,
        context: Option<String>,
        no_stream: bool,
    ) -> (r: Self)
        ensures
            r.provider == provider,
            r.prompt == prompt,
            r.api_key == api_key,
            r.context == context,
            r.stream == !no_stream,
            r.no_stream == no_stream,
    {
        ExecuteCommand { provider, prompt, api_key, context, stream: !no_stream, no_stream }
    }

    /// The context file argument, cloned out.
    pub fn context_file(&self) -> (r: Option<String>)
        ensures
            r == self.context,
    {
        match &self.context {
            Some(c) => Some(c.clone()),
            None => None,
        }
    }
}

/// The fields of a `Pipeline` command, flattened for callers.
pub struct PipelineCommand {
    pub chain: String,
    pub context: Option<String>,
    pub stream: bool,
    pub no_stream: bool,
}

impl PipelineCommand {
    /// Assemble from the command's fields; `stream` is the negation of
    /// `no_stream`.
    pub fn from_command(chain: String, context: Option<String>, no_stream: bool) -> (r: Self)
        ensures
            r.chain == chain,
            r.context == context,
            r.stream == !no_stream,
            r.no_stream == no_stream,
    {
        PipelineCommand { chain, context, stream: !no_stream, no_stream }
    }

    /// The context file argument, cloned out.
    pub fn context_file(&self) -> (r: Option<String>)
        ensures
            r == self.context,
    {
        match &self.context {
            Some(c) => Some(c.clone()),
            None => None,
        }
    }
}

impl Command {
    /// The flattened `Execute` fields, when this is an `Execute` command.
    pub fn as_execute(&self) -> (r: Option<ExecuteCommand>)
        ensures
            match *self {
                Command::Execute { provider, prompt, api_key, context, no_stream } => r matches
                    Some(e) && e.provider == provider && e.prompt == prompt && e.api_key == api_key
                    && e.context == context && e.stream == !no_stream && e.no_stream == no_stream,
                _ => r is None,
            },
    {
        match self {
            Command::Execute { provider, prompt, api_key, context, no_stream } => Some(
                ExecuteCommand::from_command(
                    provider.clone(),
                    prompt.clone(),
                    clone_opt(api_key),
                    clone_opt(context),
                    *no_stream,
                ),
            ),
            _ => None,
        }
    }

    /// The flattened `Pipeline` fields, when this is a `Pipeline` command.
    pub fn as_pipeline(&self) -> (r: Option<PipelineCommand>)
        ensures
            match *self {
                Command::Pipeline { chain, context, no_stream } => r matches Some(p) && p.chain
                    == chain && p.context == context && p.stream == !no_stream && p.no_stream
                    == no_stream,
                _ => r is None,
            },
    {
        match self {
            Command::Pipeline { chain, context, no_stream } => Some(
                PipelineCommand::from_command(chain.clone(), clone_opt(context), *no_stream),
            ),
            _ => None,
        }
    }
}

/// Clone an optional string, keeping its value.
fn clone_opt(o: &Option<String>) -> (r: Option<String>)
    ensures
        r == *o,
{
    match o {
        Some(s) => Some(s.clone()),
        None => None,
    }
}

/// One of the arguments equals `t`.
pub open spec fn args_have(args: Seq<Seq<char>>, t: Seq<char>) -> bool {
    exists|i: int| 0 <= i < args.len() && args[i] == t
}

/// The first index whose argument equals `t`.
pub open spec fn arg_pos(args: Seq<Seq<char>>, t: Seq<char>) -> Option<int>
    decreases args.len(),
{
    if args.len() == 0 {
        None
    } else if args[0] == t {
        Some(0int)
    } else {
        match arg_pos(args.skip(1), t) {
            None => None,
            Some(i) => Some(i + 1),
        }
    }
}

/// The argument that follows the first occurrence of `flag`, if both exist.
pub open spec fn value_after(args: Seq<Seq<char>>, flag: Seq<char>) -> Option<Seq<char>> {
    match arg_pos(args, flag) {
        Some(i) => if i + 1 < args.len() {
            Some(args[i + 1])
        } else {
            None
        },
        None => None,
    }
}

pub proof fn lemma_arg_pos_props(args: Seq<Seq<char>>, t: Seq<char>)
    ensures
        match arg_pos(args, t) {
            Some(i) => 0 <= i < args.len() && args[i] == t && forall|j: int|
                0 <= j < i ==> args[j] != t,
            None => forall|j: int| 0 <= j < args.len() ==> args[j] != t,
        },
        arg_pos(args, t) is Some <==> args_have(args, t),
    decreases args.len(),
{
    if args.len() > 0 && args[0] != t {
        lemma_arg_pos_props(args.skip(1), t);
        match arg_pos(args.skip(1), t) {
            None => {
                assert forall|j: int| 0 <= j < args.len() implies args[j] != t by {
                    if j >= 1 {
                        assert(args.skip(1)[j - 1] != t);
                    }
                }
            },
            Some(i) => {
                assert(args[i + 1] == args.skip(1)[i]);
                assert forall|j: int| 0 <= j < i + 1 implies args[j] != t by {
                    if j >= 1 {
                        assert(args.skip(1)[j - 1] != t);
                    }
                }
            },
        }
        if args_have(args, t) {
            let w = choose|w: int| 0 <= w < args.len() && args[w] == t;
            assert(w >= 1);
            assert(args.skip(1)[w - 1] == t);
        }
    }
}

pub proof fn lemma_arg_pos_at(args: Seq<Seq<char>>, t: Seq<char>, i: int)
    requires
        0 <= i < args.len(),
        args[i] == t,
        forall|j: int| 0 <= j < i ==> args[j] != t,
    ensures
        arg_pos(args, t) == Some(i),
{
    lemma_arg_pos_props(args, t);
    match arg_pos(args, t) {
        None => {
            assert(args[i] != t);
        },
        Some(k) => {
            if k < i {
                assert(args[k] != t);
            } else if k > i {
                assert(args[i] != t);
            }
        },
    }
}

/// Whether an argument equal to `t` occurs.
fn has_arg(args: &Vec<String>, t: &str) -> (r: bool)
    ensures
        r == args_have(args.deep_view(), t@),
{
    match find_arg(args, t) {
        Some(_) => true,
        None => false,
    }
}

/// The first position of an argument equal to `t`.
fn find_arg(args: &Vec<String>, t: &str) -> (r: Option<usize>)
    ensures
        match r {
            Some(i) => arg_pos(args.deep_view(), t@) == Some(i as int),
            None => arg_pos(args.deep_view(), t@) is None,
        },
        r is Some <==> args_have(args.deep_view(), t@),
{
    let n = args.len();
    let mut i: usize = 0;
    while i < n
        invariant
            i <= n,
            n == args@.len(),
            forall|j: int| 0 <= j < i ==> args.deep_view()[j] != t@,
        decreases n - i,
    {
        if str_eq(args[i].as_str(), t) {
            proof {
                assert(args.deep_view()[i as int] == t@);
                lemma_arg_pos_at(args.deep_view(), t@, i as int);
            }
            return Some(i);
        }
        i = i + 1;
    }
    proof {
        lemma_arg_pos_props(args.deep_view(), t@);
        if args_have(args.deep_view(), t@) {
            let w = choose|w: int|
                0 <= w < args.deep_view().len() && args.deep_view()[w] == t@;
            assert(args.deep_view()[w] != t@);
        }
    }
    None
}

/// The argument after the first occurrence of `flag`, cloned out.
fn arg_value_after(args: &Vec<String>, flag: &str) -> (r: Option<String>)
    ensures
        match r {
            Some(v) => value_after(args.deep_view(), flag@) == Some(v@),
            None => value_after(args.deep_view(), flag@) is None,
        },
{
    match find_arg(args, flag) {
        Some(i) => {
            let n = args.len();
            proof {
                lemma_arg_pos_props(args.deep_view(), flag@);
                assert(args.deep_view().len() == args@.len());
                assert(i < n);
            }
            if i + 1 < n {
                proof {
                    assert(args.deep_view()[i as int + 1] == args@[i as int + 1]@);
                }
                Some(args[i + 1].clone())
            } else {
                None
            }
        },
        None => None,
    }
}

impl CliArgs {
    /// Parse plain argument strings by flag matching: the global `--verbose`
    /// and `--quiet` flags always apply; the command is the first of
    /// `--list-providers`, `--version`, `--check-auth <provider>`,
    /// `--chain ...`, or `--provider ...` that matches, in that order, and
    /// absent otherwise.
    pub fn parse_from(args: &Vec<String>) -> (r: Self)
        ensures
            ({
                let a = args.deep_view();
                &&& r.verbose == args_have(a, "--verbose"@)
                &&& r.quiet == args_have(a, "--quiet"@)
                &&& if args_have(a, "--list-providers"@) {
                    r.command matches Some(Command::ListProviders)
                } else if args_have(a, "--version"@) {
                    r.command matches Some(Command::Version)
                } else if value_after(a, "--check-auth"@) is Some {
                    r.command matches Some(Command::CheckAuth { provider }) && provider@
                        == value_after(a, "--check-auth"@).unwrap()
                } else if args_have(a, "--chain"@) {
                    r.command matches Some(Command::Pipeline { chain, context, no_stream }) && (
                    match value_after(a, "--chain"@) {
                        Some(v) => chain@ == v,
                        None => chain@ == Seq::<char>::empty(),
                    }) && context.deep_view() == value_after(a, "--context"@) && no_stream
                        == args_have(a, "--no-stream"@)
                } else if args_have(a, "--provider"@) {
                    r.command matches Some(Command::Execute {
                        provider,
                        prompt,
                        api_key,
                        context,
                        no_stream,
                    }) && (match value_after(a, "--provider"@) {
                        Some(v) => provider@ == v,
                        None => provider@ == Seq::<char>::empty(),
                    }) && (match value_after(a, "--prompt"@) {
                        Some(v) => prompt@ == v,
                        None => prompt@ == Seq::<char>::empty(),
                    }) && api_key.deep_view() == value_after(a, "--api-key"@)
                        && context.deep_view() == value_after(a, "--context"@) && no_stream
                        == args_have(a, "--no-stream"@)
                } else {
                    r.command is None
                }
            }),
    {
        let verbose = has_arg(args, "--verbose");
        let quiet = has_arg(args, "--quiet");
        if has_arg(args, "--list-providers") {
            return CliArgs { verbose, quiet, command: Some(Command::ListProviders) };
        }
        if has_arg(args, "--version") {
            return CliArgs { verbose, quiet, command: Some(Command::Version) };
        }
        match arg_value_after(args, "--check-auth") {
            Some(provider) => {
                return CliArgs { verbose, quiet, command: Some(Command::CheckAuth { provider }) };
            },
            None => {},
        }
        if has_arg(args, "--chain") {
            let chain = match arg_value_after(args, "--chain") {
                Some(v) => v,
                None => String::new(),
            };
            let context = arg_value_after(args, "--context");
            let no_stream = has_arg(args, "--no-stream");
            return CliArgs {
                verbose,
                quiet,
                command: Some(Command::Pipeline { chain, context, no_stream }),
            };
        }
        if has_arg(args, "--provider") {
            let provider = match arg_value_after(args, "--provider") {
                Some(v) => v,
                None => String::new(),
            };
            let prompt = match arg_value_after(args, "--prompt") {
                Some(v) => v,
                None => String::new(),
            };
            let api_key = arg_value_after(args, "--api-key");
            let context = arg_value_after(args, "--context");
            let no_stream = has_arg(args, "--no-stream");
            return CliArgs {
                verbose,
                quiet,
                command: Some(
                    Command::Execute { provider, prompt, api_key, context, no_stream },
                ),
            };
        }
        CliArgs { verbose, quiet, command: None }
    }
}

} // verus!
