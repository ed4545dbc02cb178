//! The command a user asks for, decided from already-read arguments.

use vstd::prelude::*;
use crate::path::text_eq;

verus! {

/// The command to run.
#[derive(Debug)]
pub enum Subcommand {
    /// Show one document, or the whole vault.
    Inspect(Option<String>),
    /// List the links of a document.
    Links(String),
    /// List the backlinks of a document.
    Backlinks(String),
    /// Print the titles of the documents that satisfy a query.
    Query(String),
    /// Run a ranked free-text search.
    Search(String),
    /// List every document by authority.
    List,
    /// Create a document from a template text.
    New { template: String, variables: Option<String>, path: String },
}

/// The parsed command line.
#[derive(Debug)]
pub struct Args {
    pub subcommand: Subcommand,
    /// Whether to print machine-readable output.
    pub json: bool,
    pub vault_dir: String,
}

/// Why the arguments do not name a command.
#[derive(Debug, Clone, Copy, PartialEq, Eq, Structural)]
pub enum CliError {
    MissingSubcommand,
    MissingArgument,
    UnknownSubcommand,
}


/// Which command `name` with its `argument` (and, for `new`, the text of the
/// template and the variables) selects; the checks run in the order of the
/// arms.
pub open spec fn subcommand_spec(
    name: Option<Seq<char>>,
    argument: Option<Seq<char>>,
    template: Option<Seq<char>>,
    variables: Option<Seq<char>>,
) -> Result<SubcommandView, CliError> {
    match name {
        None => Err(CliError::MissingSubcommand),
        Some(n) => if n == seq!['i', 'n', 's', 'p', 'e', 'c', 't'] {
            Ok(SubcommandView::Inspect(argument))
        } else if n == seq!['l', 'i', 's', 't'] || n == seq!['l', 's'] {
            Ok(SubcommandView::List)
        } else if n == seq!['q', 'u', 'e', 'r', 'y'] || n == seq!['s', 'e', 'a', 'r', 'c', 'h'] || n
            == seq!['b', 'a', 'c', 'k', 'l', 'i', 'n', 'k', 's'] || n == seq!['l', 'i', 'n', 'k', 's'] {
            match argument {
                None => Err(CliError::MissingArgument),
                Some(a) => Ok(
                    if n == seq!['q', 'u', 'e', 'r', 'y'] {
                        SubcommandView::Query(a)
                    } else if n == seq!['s', 'e', 'a', 'r', 'c', 'h'] {
                        SubcommandView::Search(a)
                    } else if n == seq!['l', 'i', 'n', 'k', 's'] {
                        SubcommandView::Links(a)
                    } else {
                        SubcommandView::Backlinks(a)
                    },
                ),
            }
        } else if n == seq!['n', 'e', 'w'] {
            match (template, argument) {
                (Some(t), Some(a)) => Ok(SubcommandView::New(t, a, variables)),
                _ => Err(CliError::MissingArgument),
            }
        } else {
            Err(CliError::UnknownSubcommand)
        },
    }
}

/// The abstract form of a command.
pub enum SubcommandView {
    Inspect(Option<Seq<char>>),
    Links(Seq<char>),
    Backlinks(Seq<char>),
    Query(Seq<char>),
    Search(Seq<char>),
    List,
    New(Seq<char>, Seq<char>, Option<Seq<char>>),
}

pub open spec fn opt_view(o: Option<String>) -> Option<Seq<char>> {
    match o {
        Some(s) => Some(s@),
        None => None,
    }
}

impl Subcommand {
    pub open spec fn view(&self) -> SubcommandView {
        match self {
            Subcommand::Inspect(p) => SubcommandView::Inspect(opt_view(*p)),
            Subcommand::Links(p) => SubcommandView::Links(p@),
            Subcommand::Backlinks(p) => SubcommandView::Backlinks(p@),
            Subcommand::Query(q) => SubcommandView::Query(q@),
            Subcommand::Search(q) => SubcommandView::Search(q@),
            Subcommand::List => SubcommandView::List,
            Subcommand::New { template, variables, path } => SubcommandView::New(
                template@,
                path@,
                opt_view(*variables),
            ),
        }
    }

    /// Selects the command named `name`: `inspect` takes an optional path,
    /// `list` (or `ls`) none, `query`, `search`, `links` and `backlinks` one
    /// argument, and `new` a path and the text of a template; `variables`
    /// goes to `new` unchanged.
    pub fn select(
        name: Option<String>,
        argument: Option<String>,
        template: Option<String>,
        variables: Option<String>,
    ) -> (r: Result<Subcommand, CliError>)
        ensures
            match r {
                Ok(s) => subcommand_spec(
                    opt_view(name),
                    opt_view(argument),
                    opt_view(template),
                    opt_view(variables),
                )
                    == Ok::<SubcommandView, CliError>(s.view()),
                Err(e) => subcommand_spec(
                    opt_view(name),
                    opt_view(argument),
                    opt_view(template),
                    opt_view(variables),
                )
                    == Err::<SubcommandView, CliError>(e),
            },
    {
        proof {
            reveal_strlit("inspect");
            reveal_strlit("list");
            reveal_strlit("ls");
            reveal_strlit("query");
            reveal_strlit("search");
            reveal_strlit("links");
            reveal_strlit("backlinks");
            reveal_strlit("new");
            assert("inspect"@ =~= seq!['i', 'n', 's', 'p', 'e', 'c', 't']);
            assert("list"@ =~= seq!['l', 'i', 's', 't']);
            assert("ls"@ =~= seq!['l', 's']);
            assert("query"@ =~= seq!['q', 'u', 'e', 'r', 'y']);
            assert("search"@ =~= seq!['s', 'e', 'a', 'r', 'c', 'h']);
            assert("links"@ =~= seq!['l', 'i', 'n', 'k', 's']);
            assert("backlinks"@ =~= seq!['b', 'a', 'c', 'k', 'l', 'i', 'n', 'k', 's']);
            assert("new"@ =~= seq!['n', 'e', 'w']);
        }
        let n = match name {
            None => {
                return Err(CliError::MissingSubcommand);
            },
            Some(n) => n,
        };
        let n = n.as_str();
        if text_eq(n, "inspect") {
            Ok(Subcommand::Inspect(argument))
        } else if text_eq(n, "list") || text_eq(n, "ls") {
            Ok(Subcommand::List)
        } else if text_eq(n, "query") || text_eq(n, "search") || text_eq(n, "backlinks")
            || text_eq(n, "links") {
            match argument {
                None => Err(CliError::MissingArgument),
                Some(a) => Ok(
                    if text_eq(n, "query") {
                        Subcommand::Query(a)
                    } else if text_eq(n, "search") {
                        Subcommand::Search(a)
                    } else if text_eq(n, "links") {
                        Subcommand::Links(a)
                    } else {
                        Subcommand::Backlinks(a)
                    },
                ),
            }
        } else if text_eq(n, "new") {
            match (template, argument) {
                (Some(t), Some(a)) => Ok(Subcommand::New { template: t, variables, path: a }),
                _ => Err(CliError::MissingArgument),
            }
        } else {
            Err(CliError::UnknownSubcommand)
        }
    }
}

} // verus!
