//! Command-line intent, decided over plain argument strings.
//!
//! The rule mirrors the tool's usage: arguments are scanned in order; a help
//! flag met before any positional argument asks for the help text; strip
//! flags accumulate; the first other argument is the server address (the
//! word `auto` selects discovery) and everything after it, verbatim, is the
//! list of files to send. Without a positional argument the tool receives,
//! stripping the common prefix exactly when a strip flag was given.

use vstd::prelude::*;

verus! {

/// Whether the receiver strips the common path prefix.
#[derive(Clone, Copy, Debug, PartialEq, Eq, Structural)]
pub enum PathPrefix {
    Keep,
    Strip,
}

/// How the sender learns the server's address: discovery, or a user-supplied
/// address text.
#[derive(Debug)]
pub enum ServerAddress {
    Auto,
    Direct(String),
}

/// What the process is asked to do.
#[derive(Debug)]
pub enum Mode {
    Receiver { prefix: PathPrefix },
    Sender { ip: ServerAddress, files: Vec<String> },
}

/// The parsed command line.
#[derive(Debug)]
pub struct Settings {
    pub mode: Mode,
}

/// The outcome of parsing: show the help text, or run.
#[derive(Debug)]
pub enum ParseOutcome {
    Help,
    Run(Settings),
}

/// A help flag.
pub open spec fn is_help_arg(s: Seq<char>) -> bool {
    s == "-h"@ || s == "--help"@
}

/// A strip-prefix flag.
pub open spec fn is_strip_arg(s: Seq<char>) -> bool {
    s == "-s"@ || s == "--strip-prefix"@
}

/// The discovery keyword.
pub open spec fn is_auto_arg(s: Seq<char>) -> bool {
    s == "auto"@
}

/// The views of the argument strings.
pub open spec fn arg_views(args: Seq<String>) -> Seq<Seq<char>> {
    args.map_values(|s: String| s@)
}

/// Some argument is positional: neither flag form of strip.
pub open spec fn has_positional(vs: Seq<Seq<char>>) -> bool {
    exists|i: int| 0 <= i < vs.len() && !is_strip_arg(#[trigger] vs[i])
}

/// Index of the first positional argument.
pub open spec fn first_positional(vs: Seq<Seq<char>>) -> int
    decreases vs.len(),
{
    if vs.len() == 0 {
        0
    } else if !is_strip_arg(vs[0]) {
        0
    } else {
        1 + first_positional(vs.skip(1))
    }
}

/// An index below which everything is a strip flag, and which is not one
/// itself, is the first positional index.
pub proof fn lemma_first_positional_unique(vs: Seq<Seq<char>>, k: int)
    requires
        0 <= k < vs.len(),
        !is_strip_arg(vs[k]),
        forall|j: int| 0 <= j < k ==> is_strip_arg(#[trigger] vs[j]),
    ensures
        has_positional(vs),
        first_positional(vs) == k,
    decreases k,
{
    if k == 0 {
    } else {
        assert(forall|j: int| 0 <= j < k - 1 ==> #[trigger] vs.skip(1)[j] == vs[j + 1]);
        assert(vs.skip(1)[k - 1] == vs[k]);
        lemma_first_positional_unique(vs.skip(1), k - 1);
    }
}

/// String equality over views.
fn arg_eq(a: &String, b: &String) -> (r: bool)
    ensures
        r == (a@ == b@),
{
    *a == *b
}

/// Decides the command line. A help flag in front of every positional
/// argument yields the help outcome; otherwise the first positional argument
/// makes the run a send (to discovery with `auto`, else to that address
/// text, with the remaining arguments as the files); with none the run is a
/// receive, stripping exactly when a strip flag appeared.
pub fn parse(args: &Vec<String>) -> (r: ParseOutcome)
    ensures
        ({
            let vs = arg_views(args@);
            if has_positional(vs) {
                let k = first_positional(vs);
                if is_help_arg(vs[k]) {
                    r is Help
                } else {
                    match r {
                        ParseOutcome::Run(s) => match s.mode {
                            Mode::Sender { ip, files } => {
                                &&& arg_views(files@) == vs.skip(k + 1)
                                &&& match ip {
                                    ServerAddress::Auto => is_auto_arg(vs[k]),
                                    ServerAddress::Direct(d) => !is_auto_arg(vs[k]) && d@ == vs[k],
                                }
                            },
                            Mode::Receiver { .. } => false,
                        },
                        ParseOutcome::Help => false,
                    }
                }
            } else {
                match r {
                    ParseOutcome::Run(s) => match s.mode {
                        Mode::Receiver { prefix } => (prefix == PathPrefix::Strip) <==> vs.len()
                            > 0,
                        Mode::Sender { .. } => false,
                    },
                    ParseOutcome::Help => false,
                }
            }
        }),
{
    let ghost vs = arg_views(args@);
    proof {
        assert(forall|i: int| 0 <= i < args@.len() ==> vs[i] == (#[trigger] args@[i])@);
    }
    let help_short = "-h".to_owned();
    let help_long = "--help".to_owned();
    let strip_short = "-s".to_owned();
    let strip_long = "--strip-prefix".to_owned();
    let auto_word = "auto".to_owned();
    let mut i: usize = 0;
    while i < args.len()
        invariant
            i <= args@.len(),
            vs == arg_views(args@),
            vs.len() == args@.len(),
            forall|t: int| 0 <= t < args@.len() ==> vs[t] == (#[trigger] args@[t])@,
            help_short@ == "-h"@ && help_long@ == "--help"@,
            strip_short@ == "-s"@ && strip_long@ == "--strip-prefix"@,
            auto_word@ == "auto"@,
            forall|j: int| 0 <= j < i ==> is_strip_arg(#[trigger] vs[j]),
        decreases args@.len() - i,
    {
        let a = &args[i];
        if arg_eq(a, &strip_short) || arg_eq(a, &strip_long) {
            i = i + 1;
            continue ;
        }
        proof {
            lemma_first_positional_unique(vs, i as int);
        }
        if arg_eq(a, &help_short) || arg_eq(a, &help_long) {
            return ParseOutcome::Help;
        }
        let ip = if arg_eq(a, &auto_word) {
            ServerAddress::Auto
        } else {
            ServerAddress::Direct(a.clone())
        };
        let mut files: Vec<String> = Vec::new();
        let mut t: usize = i + 1;
        while t < args.len()
            invariant
                i + 1 <= t <= args@.len(),
                vs == arg_views(args@),
                vs.len() == args@.len(),
                forall|j: int| 0 <= j < args@.len() ==> vs[j] == (#[trigger] args@[j])@,
                files@.len() == t - i - 1,
                forall|j: int| 0 <= j < files@.len() ==> (#[trigger] files@[j])@ == vs[i + 1 + j],
            decreases args@.len() - t,
        {
            files.push(args[t].clone());
            t = t + 1;
        }
        assert(arg_views(files@) =~= vs.skip(i + 1)) by {
            assert(forall|j: int| 0 <= j < files@.len() ==> #[trigger] arg_views(files@)[j]
                == files@[j]@);
        }
        return ParseOutcome::Run(Settings { mode: Mode::Sender { ip, files } });
    }
    // every argument was a strip flag
    assert(!has_positional(vs));
    let prefix = if args.len() > 0 {
        PathPrefix::Strip
    } else {
        PathPrefix::Keep
    };
    ParseOutcome::Run(Settings { mode: Mode::Receiver { prefix } })
}

} // verus!
